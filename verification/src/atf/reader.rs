//! The trace store: a session directory with its validated manifest, and the
//! cursor over its event log.

use crate::atf::codec::{decode_record, record_of};
use crate::atf::error::{AtfError, AtfErrorView, AtfResult, DecodeFault};
use crate::atf::event::{events_view, EventView, ParsedEvent, RecordView};
use crate::atf::manifest::{validated, ManifestInfo, ManifestView, RawManifest};
use crate::atf::wire::{read_varint, varint};
use crate::text::{child_path, child_path_text};
use vstd::prelude::*;
use vstd::slice::*;
use vstd::string::*;

verus! {

/// The record that begins at `pos` in the log and the position behind it. A
/// record is a variable-length integer and that many bytes of message body.
pub open spec fn frame_at(data: Seq<u8>, pos: int) -> Result<(RecordView, int), DecodeFault> {
    match varint(data.skip(pos)) {
        None => Err(DecodeFault::InvalidVarint),
        Some((len, n)) => if len > data.len() - pos - n {
            Err(DecodeFault::BufferUnderflow)
        } else {
            match record_of(data.subrange(pos + n, pos + n + len)) {
                Err(fault) => Err(fault),
                Ok(record) => Ok((record, pos + n + len)),
            }
        },
    }
}

/// The events of the log from `pos` to its end, or the first fault. The log
/// is one record behind the other; an empty log has no events.
pub open spec fn log_from(data: Seq<u8>, pos: int) -> Result<Seq<EventView>, DecodeFault>
    decreases data.len() - pos,
{
    if pos < 0 || pos >= data.len() {
        Ok(Seq::empty())
    } else {
        match frame_at(data, pos) {
            Err(fault) => Err(fault),
            Ok((record, next)) => if !(pos < next <= data.len()) {
                Err(DecodeFault::BufferUnderflow)
            } else {
                match log_from(data, next) {
                    Err(fault) => Err(fault),
                    Ok(rest) => Ok(seq![record.parsed()] + rest),
                }
            },
        }
    }
}

/// The events of a whole log.
pub open spec fn log_events(data: Seq<u8>) -> Result<Seq<EventView>, DecodeFault> {
    log_from(data, 0)
}

/// A single-pass cursor over an event log. After a fault it is at the end of
/// the log and gives nothing more.
pub struct EventStream {
    data: Vec<u8>,
    position: usize,
}

impl EventStream {
    #[verifier::type_invariant]
    spec fn in_bounds(self) -> bool {
        self.position <= self.data@.len()
    }

    /// The bytes of the log.
    pub closed spec fn bytes(&self) -> Seq<u8> {
        self.data@
    }

    /// The position of the cursor in the log.
    pub closed spec fn offset(&self) -> int {
        self.position as int
    }

    /// A cursor at the start of the log `data`.
    pub fn new(data: Vec<u8>) -> (stream: Self)
        ensures
            stream.bytes() == data@,
            stream.offset() == 0,
    {
        EventStream { data, position: 0 }
    }

    /// Whether the cursor has reached the end of the log.
    pub fn is_empty(&self) -> (r: bool)
        ensures
            r == (self.offset() >= self.bytes().len()),
    {
        self.position >= self.data.len()
    }

    /// The next event of the log: nothing at the end of the log; else the
    /// event of the record at the cursor, which moves behind the record; or
    /// the fault of that record, after which the cursor is at the end of the
    /// log.
    pub fn advance(&mut self) -> (item: Option<Result<ParsedEvent, DecodeFault>>)
        ensures
            final(self).bytes() == old(self).bytes(),
            0 <= final(self).offset() <= final(self).bytes().len(),
            old(self).offset() >= old(self).bytes().len() ==> item is None && final(self).offset()
                == old(self).offset(),
            old(self).offset() < old(self).bytes().len() ==> match frame_at(
                old(self).bytes(),
                old(self).offset(),
            ) {
                Ok((record, next)) => {
                    &&& item matches Some(Ok(event))
                    &&& event@ == record.parsed()
                    &&& final(self).offset() == next
                    &&& old(self).offset() < next
                },
                Err(fault) => {
                    &&& item == Some(Err::<ParsedEvent, _>(fault))
                    &&& final(self).offset() == final(self).bytes().len()
                },
            },
    {
        proof {
            use_type_invariant(&*self);
        }
        if self.position >= self.data.len() {
            return None;
        }
        let end = self.data.len();
        let (len, start) = match read_varint(self.data.as_slice(), self.position) {
            Ok(read) => read,
            Err(fault) => {
                self.position = end;
                return Some(Err(fault));
            },
        };
        if len > (end - start) as u64 {
            self.position = end;
            return Some(Err(DecodeFault::BufferUnderflow));
        }
        let stop = start + len as usize;
        let decoded = decode_record(slice_subrange(self.data.as_slice(), start, stop));
        match decoded {
            Ok(record) => {
                self.position = stop;
                Some(Ok(ParsedEvent::from_proto(record)))
            },
            Err(fault) => {
                self.position = end;
                Some(Err(fault))
            },
        }
    }

    /// The next event of the log, as [`Self::advance`] gives it, with a fault
    /// reported as a decode error. After a decode error the stream gives
    /// nothing more.
    pub fn next(&mut self) -> (item: Option<AtfResult<ParsedEvent>>)
        ensures
            final(self).bytes() == old(self).bytes(),
            0 <= final(self).offset() <= final(self).bytes().len(),
            old(self).offset() >= old(self).bytes().len() ==> item is None && final(self).offset()
                == old(self).offset(),
            old(self).offset() < old(self).bytes().len() ==> match frame_at(
                old(self).bytes(),
                old(self).offset(),
            ) {
                Ok((record, next)) => {
                    &&& item matches Some(Ok(event))
                    &&& event@ == record.parsed()
                    &&& final(self).offset() == next
                    &&& old(self).offset() < next
                },
                Err(fault) => {
                    &&& item matches Some(Err(e))
                    &&& e@ == AtfErrorView::Decode(fault)
                    &&& final(self).offset() == final(self).bytes().len()
                },
            },
    {
        match self.advance() {
            None => None,
            Some(Ok(event)) => Some(Ok(event)),
            Some(Err(fault)) => Some(Err(AtfError::decode(fault))),
        }
    }

    /// The events from the cursor to the end of the log, or the first fault.
    /// No event is given where a record is faulty.
    pub fn drain(&mut self) -> (r: Result<Vec<ParsedEvent>, DecodeFault>)
        ensures
            final(self).bytes() == old(self).bytes(),
            final(self).offset() == final(self).bytes().len() || old(self).offset() >= old(
                self,
            ).bytes().len(),
            match r {
                Ok(events) => log_from(old(self).bytes(), old(self).offset()) == Ok::<
                    _,
                    DecodeFault,
                >(events_view(events@)),
                Err(fault) => log_from(old(self).bytes(), old(self).offset()) == Err::<
                    Seq<EventView>,
                    _,
                >(fault),
            },
    {
        let mut events: Vec<ParsedEvent> = Vec::new();
        let ghost data = self.bytes();
        let ghost first = self.offset();
        proof {
            use_type_invariant(&*self);
            assert(events_view(events@) =~= Seq::<EventView>::empty());
        }
        loop
            invariant
                self.bytes() == data,
                0 <= first <= self.offset() <= data.len(),
                first == old(self).offset(),
                data == old(self).bytes(),
                first < data.len() || self.offset() == first,
                match log_from(data, self.offset()) {
                    Ok(rest) => log_from(data, first) == Ok::<_, DecodeFault>(
                        events_view(events@) + rest,
                    ),
                    Err(fault) => log_from(data, first) == Err::<Seq<EventView>, _>(fault),
                },
            decreases data.len() - self.offset(),
        {
            let ghost before = self.offset();
            let ghost seen = events_view(events@);
            match self.advance() {
                None => {
                    assert(seen + Seq::<EventView>::empty() =~= seen);
                    return Ok(events);
                },
                Some(Err(fault)) => {
                    return Err(fault);
                },
                Some(Ok(event)) => {
                    events.push(event);
                    proof {
                        assert(events_view(events@) =~= seen.push(event@));
                        match log_from(data, self.offset()) {
                            Ok(rest) => {
                                assert(seen + (seq![event@] + rest) =~= seen.push(event@) + rest);
                            },
                            Err(_) => {},
                        }
                    }
                },
            }
        }
    }
}

/// What reading a file of the session gave.
#[derive(Debug, Clone, PartialEq)]
pub enum FileRead {
    /// The file does not exist.
    Missing,
    /// The file could not be read, for the reason given.
    Failed(String),
    /// The content of the file.
    Loaded(Vec<u8>),
}

/// The name of the manifest file in a session directory.
pub open spec fn manifest_name() -> Seq<char> {
    "trace.json"@
}

/// The name of the event file in a session directory.
pub open spec fn events_name() -> Seq<char> {
    "events.bin"@
}

/// What opening a session gives: the directory must exist and be one, its
/// manifest file must exist and be readable, and the manifest must be valid.
pub open spec fn opened(
    trace_dir: Seq<char>,
    is_directory: bool,
    manifest: FileRead,
    parsed: Result<RawManifest, String>,
) -> Result<ManifestView, AtfErrorView> {
    if !is_directory {
        Err(AtfErrorView::TraceNotFound(trace_dir))
    } else {
        match manifest {
            FileRead::Missing => Err(
                AtfErrorView::ManifestNotFound(child_path_text(trace_dir, manifest_name())),
            ),
            FileRead::Failed(cause) => Err(
                AtfErrorView::Io {
                    path: child_path_text(trace_dir, manifest_name()),
                    cause: cause@,
                },
            ),
            FileRead::Loaded(payload) => validated(payload@, parsed),
        }
    }
}

/// What the event file gives: it must exist and be readable, and each of its
/// records must be sound.
pub open spec fn loaded_events(trace_dir: Seq<char>, events: FileRead) -> Result<
    Seq<EventView>,
    AtfErrorView,
> {
    match events {
        FileRead::Missing => Err(
            AtfErrorView::EventsNotFound(child_path_text(trace_dir, events_name())),
        ),
        FileRead::Failed(cause) => Err(
            AtfErrorView::Io { path: child_path_text(trace_dir, events_name()), cause: cause@ },
        ),
        FileRead::Loaded(data) => match log_events(data@) {
            Ok(events) => Ok(events),
            Err(fault) => Err(AtfErrorView::Decode(fault)),
        },
    }
}

/// An open session: its directory and its validated manifest. The event file
/// is not looked at before a stream is asked for.
#[derive(Debug, Clone)]
pub struct AtfReader {
    trace_dir: String,
    manifest: ManifestInfo,
}

impl AtfReader {
    /// The directory of the session.
    pub closed spec fn dir(&self) -> Seq<char> {
        self.trace_dir@
    }

    /// The manifest of the session.
    pub closed spec fn info(&self) -> ManifestView {
        self.manifest@
    }

    /// Opens the session in `trace_dir`. `is_directory` says whether that
    /// path exists and is a directory, `manifest` what reading its manifest
    /// file gave, and `parsed` what the JSON decoder made of the content.
    pub fn open(
        trace_dir: String,
        is_directory: bool,
        manifest: FileRead,
        parsed: Result<RawManifest, String>,
    ) -> (r: AtfResult<Self>)
        ensures
            match r {
                Ok(reader) => opened(trace_dir@, is_directory, manifest, parsed) == Ok::<
                    _,
                    AtfErrorView,
                >(reader.info()) && reader.dir() == trace_dir@ && reader.info().valid(),
                Err(e) => opened(trace_dir@, is_directory, manifest, parsed) == Err::<
                    ManifestView,
                    _,
                >(e@),
            },
            manifest matches FileRead::Loaded(payload) ==> (payload@.len() == 0 ==> r is Err),
            parsed matches Ok(raw) ==> (raw.time_end_ns < raw.time_start_ns ==> r is Err),
    {
        if !is_directory {
            return Err(AtfError::TraceNotFound(trace_dir));
        }
        match manifest {
            FileRead::Missing => Err(
                AtfError::ManifestNotFound(child_path(trace_dir.as_str(), "trace.json")),
            ),
            FileRead::Failed(cause) => Err(
                AtfError::io(child_path(trace_dir.as_str(), "trace.json"), cause),
            ),
            FileRead::Loaded(payload) => {
                match ManifestInfo::from_bytes(payload.as_slice(), parsed) {
                    Ok(manifest) => Ok(AtfReader { trace_dir, manifest }),
                    Err(e) => Err(e),
                }
            },
        }
    }

    /// The directory of the session.
    pub fn trace_dir(&self) -> (dir: &str)
        ensures
            dir@ == self.dir(),
    {
        self.trace_dir.as_str()
    }

    /// The manifest of the session.
    pub fn manifest(&self) -> (manifest: &ManifestInfo)
        ensures
            manifest@ == self.info(),
    {
        &self.manifest
    }

    /// The path of the manifest file.
    pub fn manifest_path(&self) -> (path: String)
        ensures
            path@ == child_path_text(self.dir(), manifest_name()),
    {
        child_path(self.trace_dir.as_str(), "trace.json")
    }

    /// The path of the event file.
    pub fn events_path(&self) -> (path: String)
        ensures
            path@ == child_path_text(self.dir(), events_name()),
    {
        child_path(self.trace_dir.as_str(), "events.bin")
    }

    /// A cursor over the event log, given what reading the event file gave.
    pub fn event_stream(&self, events: FileRead) -> (r: AtfResult<EventStream>)
        ensures
            match r {
                Ok(stream) => events matches FileRead::Loaded(data) && stream.bytes() == data@
                    && stream.offset() == 0,
                Err(e) => match events {
                    FileRead::Missing => e@ == AtfErrorView::EventsNotFound(
                        child_path_text(self.dir(), events_name()),
                    ),
                    FileRead::Failed(cause) => e@ == (AtfErrorView::Io {
                        path: child_path_text(self.dir(), events_name()),
                        cause: cause@,
                    }),
                    FileRead::Loaded(_) => false,
                },
            },
    {
        match events {
            FileRead::Missing => Err(AtfError::EventsNotFound(self.events_path())),
            FileRead::Failed(cause) => Err(AtfError::io(self.events_path(), cause)),
            FileRead::Loaded(data) => Ok(EventStream::new(data)),
        }
    }

    /// All events of the session, given what reading the event file gave.
    pub fn load_all_events(&self, events: FileRead) -> (r: AtfResult<Vec<ParsedEvent>>)
        ensures
            match r {
                Ok(list) => loaded_events(self.dir(), events) == Ok::<_, AtfErrorView>(
                    events_view(list@),
                ),
                Err(e) => loaded_events(self.dir(), events) == Err::<Seq<EventView>, _>(e@),
            },
    {
        let mut stream = match self.event_stream(events) {
            Ok(stream) => stream,
            Err(e) => {
                return Err(e);
            },
        };
        match stream.drain() {
            Ok(list) => Ok(list),
            Err(fault) => Err(AtfError::decode(fault)),
        }
    }
}

/// What the file system gave for the directory of a session and its two
/// files.
#[derive(Debug)]
pub struct SessionRead {
    /// Whether the path of the session exists and is a directory.
    pub is_directory: bool,
    /// What reading the manifest file gave.
    pub manifest: FileRead,
    /// What the JSON decoder made of the content of the manifest file.
    pub manifest_json: Result<RawManifest, String>,
    /// What reading the event file gave.
    pub events: FileRead,
}

/// The events of a session: the session must open, then its event file must
/// give its events. What stands for the event file is not looked at where
/// the session does not open.
pub open spec fn session_events(trace_dir: Seq<char>, read: SessionRead) -> Result<
    Seq<EventView>,
    AtfErrorView,
> {
    match opened(trace_dir, read.is_directory, read.manifest, read.manifest_json) {
        Err(e) => Err(e),
        Ok(_) => loaded_events(trace_dir, read.events),
    }
}

/// Loads the events of the session in `trace_dir` from what the file system
/// gave for it.
pub fn load_session(trace_dir: String, read: SessionRead) -> (r: AtfResult<Vec<ParsedEvent>>)
    ensures
        match r {
            Ok(list) => session_events(trace_dir@, read) == Ok::<_, AtfErrorView>(
                events_view(list@),
            ),
            Err(e) => session_events(trace_dir@, read) == Err::<Seq<EventView>, _>(e@),
        },
{
    let reader = match AtfReader::open(
        trace_dir,
        read.is_directory,
        read.manifest,
        read.manifest_json,
    ) {
        Ok(reader) => reader,
        Err(e) => {
            return Err(e);
        },
    };
    reader.load_all_events(read.events)
}

} // verus!
