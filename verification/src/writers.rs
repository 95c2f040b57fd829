//! The writer and reader strategies and the format dispatcher.
//!
//! A writer accepts events in replay order between `begin_writing_trace_events`
//! and `finish_writing_trace_events`, which hands back the finished file
//! bytes; storing them is the embedding application's job.  The buffered
//! writer keeps the whole event list and encodes it on finish; the streaming
//! writer encodes each event as it arrives and only compresses on finish.
//! The reader detects the format of a byte buffer by its header.

use vstd::prelude::*;

use crate::event_codec::{enc_event, enc_event_exec, enc_events_from, events_fit_from};
use crate::format::{
    decode_trace_auto, degrade_events_from, encode_trace_v0, encode_trace_v1, header_v0,
    header_v1, spec_encode_v0, spec_encode_v1, v0_encoding_of, v0_events_ok_from, v0_payload,
    TraceError,
};
use crate::model::{event_models_of, EventModel, MetadataModel};
use crate::recorder::Tracer;
use crate::types::{TraceLowLevelEvent, TraceMetadata};

verus! {

/// The three logical trace-file formats.  `Json` is plain serialization kept
/// for tests and tooling and is chosen only by the caller, never detected;
/// the two binary formats carry a magic header.
#[derive(Clone, Copy, Debug, PartialEq, Eq, Structural)]
pub enum TraceEventsFileFormat {
    Json,
    BinaryV0,
    Binary,
}

/// Picks the logical format from a file name: `.json` means the plain
/// serialization, `.bin` the streaming binary format.
pub fn determine_file_format_from_name(s: &str) -> (r: Option<TraceEventsFileFormat>)
    ensures
        s@.len() >= 5 && s@.subrange(s@.len() - 5, s@.len() as int) =~= seq![
            '.',
            'j',
            's',
            'o',
            'n',
        ] ==> r == Some(TraceEventsFileFormat::Json),
        !(s@.len() >= 5 && s@.subrange(s@.len() - 5, s@.len() as int) =~= seq![
            '.',
            'j',
            's',
            'o',
            'n',
        ]) && s@.len() >= 4 && s@.subrange(s@.len() - 4, s@.len() as int) =~= seq![
            '.',
            'b',
            'i',
            'n',
        ] ==> r == Some(TraceEventsFileFormat::Binary),
        !(s@.len() >= 5 && s@.subrange(s@.len() - 5, s@.len() as int) =~= seq![
            '.',
            'j',
            's',
            'o',
            'n',
        ]) && !(s@.len() >= 4 && s@.subrange(s@.len() - 4, s@.len() as int) =~= seq![
            '.',
            'b',
            'i',
            'n',
        ]) ==> r is None,
{
    let n = s.unicode_len();
    if n >= 5 && s.get_char(n - 5) == '.' && s.get_char(n - 4) == 'j' && s.get_char(n - 3) == 's'
        && s.get_char(n - 2) == 'o' && s.get_char(n - 1) == 'n' {
        proof {
            assert(s@.subrange(s@.len() - 5, s@.len() as int) =~= seq!['.', 'j', 's', 'o', 'n']);
        }
        Some(TraceEventsFileFormat::Json)
    } else if n >= 4 && s.get_char(n - 4) == '.' && s.get_char(n - 3) == 'b' && s.get_char(n - 2)
        == 'i' && s.get_char(n - 1) == 'n' {
        proof {
            assert(s@.subrange(s@.len() - 4, s@.len() as int) =~= seq!['.', 'b', 'i', 'n']);
            if s@.len() >= 5 && s@.subrange(s@.len() - 5, s@.len() as int) =~= seq![
                '.',
                'j',
                's',
                'o',
                'n',
            ] {
                assert(s@[s@.len() - 1] == 'n');
                assert(s@[s@.len() - 1] == 'n');
            }
        }
        Some(TraceEventsFileFormat::Binary)
    } else {
        proof {
            if s@.len() >= 5 && s@.subrange(s@.len() - 5, s@.len() as int) =~= seq![
                '.',
                'j',
                's',
                'o',
                'n',
            ] {
                assert(s@[s@.len() - 5] == '.');
                assert(s@[s@.len() - 4] == 'j');
                assert(s@[s@.len() - 3] == 's');
                assert(s@[s@.len() - 2] == 'o');
                assert(s@[s@.len() - 1] == 'n');
            }
            if s@.len() >= 4 && s@.subrange(s@.len() - 4, s@.len() as int) =~= seq![
                '.',
                'b',
                'i',
                'n',
            ] {
                assert(s@[s@.len() - 4] == '.');
                assert(s@[s@.len() - 3] == 'b');
                assert(s@[s@.len() - 2] == 'i');
                assert(s@[s@.len() - 1] == 'n');
            }
        }
        None
    }
}

/// The buffered writer: a recorder plus the chosen format and the output
/// paths handed to the `begin_writing_*` calls.  All events stay in memory
/// until `finish_writing_trace_events` encodes them at once.
pub struct NonStreamingTraceWriter {
    pub tracer: Tracer,
    pub format: TraceEventsFileFormat,
    pub trace_events_path: Option<String>,
    pub trace_metadata_path: Option<String>,
    pub trace_paths_path: Option<String>,
}

impl NonStreamingTraceWriter {
    /// A fresh buffered writer in the streaming binary format.
    pub fn new(program: &str, args: &Vec<String>, workdir: &str) -> (r: NonStreamingTraceWriter)
        ensures
            r.tracer.wf(),
            r.tracer.log() == Seq::<EventModel>::empty(),
            r.format == TraceEventsFileFormat::Binary,
            r.trace_events_path is None,
            r.trace_metadata_path is None,
            r.trace_paths_path is None,
    {
        NonStreamingTraceWriter {
            tracer: Tracer::new(program, args, workdir),
            format: TraceEventsFileFormat::Binary,
            trace_events_path: None,
            trace_metadata_path: None,
            trace_paths_path: None,
        }
    }

    /// Selects the format that `finish_writing_trace_events` will produce.
    pub fn set_format(&mut self, format: TraceEventsFileFormat)
        ensures
            final(self).format == format,
            final(self).tracer == old(self).tracer,
            final(self).trace_events_path == old(self).trace_events_path,
            final(self).trace_metadata_path == old(self).trace_metadata_path,
            final(self).trace_paths_path == old(self).trace_paths_path,
    {
        self.format = format;
    }

    /// Remembers where the events file is to be stored.
    pub fn begin_writing_trace_events(&mut self, path: &str)
        ensures
            final(self).trace_events_path matches Some(p) && p@ == path@,
            final(self).tracer == old(self).tracer,
            final(self).format == old(self).format,
    {
        self.trace_events_path = Some(path.to_owned());
    }

    /// Remembers where the metadata file is to be stored.
    pub fn begin_writing_trace_metadata(&mut self, path: &str)
        ensures
            final(self).trace_metadata_path matches Some(p) && p@ == path@,
            final(self).tracer == old(self).tracer,
            final(self).format == old(self).format,
    {
        self.trace_metadata_path = Some(path.to_owned());
    }

    /// Remembers where the path-list file is to be stored.
    pub fn begin_writing_trace_paths(&mut self, path: &str)
        ensures
            final(self).trace_paths_path matches Some(p) && p@ == path@,
            final(self).tracer == old(self).tracer,
            final(self).format == old(self).format,
    {
        self.trace_paths_path = Some(path.to_owned());
    }

    /// Appends one raw event to the buffer.
    pub fn add_event(&mut self, event: TraceLowLevelEvent)
        ensures
            final(self).tracer.log() == old(self).tracer.log().push(event.model()),
            final(self).format == old(self).format,
            final(self).trace_events_path == old(self).trace_events_path,
    {
        self.tracer.events.push(event);
        proof {
            broadcast use crate::recorder::lemma_event_models_push;

        }
    }

    /// Moves all events out of `events` into the buffer, in order.
    pub fn append_events(&mut self, events: &mut Vec<TraceLowLevelEvent>)
        ensures
            final(self).tracer.log() == old(self).tracer.log() + event_models_of(old(events)@),
            final(events)@.len() == 0,
            final(self).format == old(self).format,
            final(self).trace_events_path == old(self).trace_events_path,
    {
        self.tracer.events.append(events);
        proof {
            assert(event_models_of(final(self).tracer.events@) =~= event_models_of(
                old(self).tracer.events@,
            ) + event_models_of(old(events)@));
            assert(event_models_of(final(events)@) =~= Seq::<EventModel>::empty());
        }
    }

    /// Encodes the buffered events in the chosen format and returns the
    /// finished file bytes.  Must follow `begin_writing_trace_events`.  The
    /// plain serialization format is serde-based and handled by the
    /// embedding application, so it is refused here.
    pub fn finish_writing_trace_events(&self) -> (r: Result<Vec<u8>, TraceError>)
        requires
            self.trace_events_path is Some,
        ensures
            self.format == TraceEventsFileFormat::BinaryV0 ==> {
                &&& (r is Ok <==> v0_events_ok_from(self.tracer.log(), 0))
                &&& (r matches Ok(out) ==> out@ == spec_encode_v0(self.tracer.log()))
                &&& (r is Ok ==> v0_payload(self.tracer.log()).len() <= usize::MAX)
            },
            self.format == TraceEventsFileFormat::Binary ==> (r matches Ok(out) && out@
                == spec_encode_v1(self.tracer.log())),
            self.format == TraceEventsFileFormat::Json ==> r == Err::<Vec<u8>, TraceError>(
                TraceError::UnsupportedFormat,
            ),
    {
        match self.format {
            TraceEventsFileFormat::Json => Err(TraceError::UnsupportedFormat),
            TraceEventsFileFormat::BinaryV0 => encode_trace_v0(&self.tracer.events),
            TraceEventsFileFormat::Binary => encode_trace_v1(&self.tracer.events),
        }
    }

    /// Returns the run metadata to be stored as the metadata side file.
    /// Must follow `begin_writing_trace_metadata`.
    pub fn finish_writing_trace_metadata(&self) -> (r: TraceMetadata)
        requires
            self.trace_metadata_path is Some,
        ensures
            r.model() == (MetadataModel {
                program: self.tracer.data.program@,
                args: crate::model::str_models_of(self.tracer.data.args@),
                workdir: self.tracer.data.workdir@,
            }),
    {
        TraceMetadata {
            program: self.tracer.data.program.clone(),
            args: crate::recorder::clone_strings(&self.tracer.data.args),
            workdir: self.tracer.data.workdir.clone(),
        }
    }

    /// Returns the interned path list to be stored as the path side file.
    /// Must follow `begin_writing_trace_paths`.
    pub fn finish_writing_trace_paths(&self) -> (r: Vec<String>)
        requires
            self.trace_paths_path is Some,
        ensures
            crate::model::str_models_of(r@) == crate::model::str_models_of(
                self.tracer.data.path_list@,
            ),
    {
        crate::recorder::clone_strings(&self.tracer.data.path_list)
    }
}

/// Appending an event to a stream appends its encoding.
pub proof fn lemma_enc_events_snoc(ms: Seq<EventModel>, e: EventModel, i: int)
    requires
        0 <= i <= ms.len(),
    ensures
        enc_events_from(ms.push(e), i) == enc_events_from(ms, i) + enc_event(e),
    decreases ms.len() - i,
{
    if i == ms.len() {
        assert(enc_events_from(ms.push(e), i) =~= enc_event(e) + enc_events_from(
            ms.push(e),
            i + 1,
        ));
        assert(enc_events_from(ms.push(e), i + 1) =~= Seq::<u8>::empty());
        assert(enc_events_from(ms.push(e), i) =~= enc_events_from(ms, i) + enc_event(e));
    } else {
        assert(ms.push(e)[i] == ms[i]);
        lemma_enc_events_snoc(ms, e, i + 1);
        assert(enc_events_from(ms.push(e), i) =~= enc_events_from(ms, i) + enc_event(e));
    }
}

/// The streaming writer: a recorder plus the incrementally encoded payload.
/// Every added event is encoded immediately; `finish_writing_trace_events`
/// only compresses the payload and frames it.
pub struct StreamingTraceWriter {
    pub tracer: Tracer,
    pub payload: Vec<u8>,
    pub trace_events_path: Option<String>,
    pub trace_metadata_path: Option<String>,
    pub trace_paths_path: Option<String>,
}

impl StreamingTraceWriter {
    /// The payload holds exactly the encodings of the recorded events.
    pub open spec fn synced(&self) -> bool {
        self.payload@ == enc_events_from(self.tracer.log(), 0)
    }

    /// A fresh streaming writer with an empty payload.
    pub fn new(program: &str, args: &Vec<String>, workdir: &str) -> (r: StreamingTraceWriter)
        ensures
            r.tracer.wf(),
            r.tracer.log() == Seq::<EventModel>::empty(),
            r.synced(),
            r.trace_events_path is None,
    {
        let r = StreamingTraceWriter {
            tracer: Tracer::new(program, args, workdir),
            payload: Vec::new(),
            trace_events_path: None,
            trace_metadata_path: None,
            trace_paths_path: None,
        };
        proof {
            assert(r.payload@ =~= enc_events_from(r.tracer.log(), 0));
        }
        r
    }

    /// Remembers where the events file is to be stored.
    pub fn begin_writing_trace_events(&mut self, path: &str)
        ensures
            final(self).trace_events_path matches Some(p) && p@ == path@,
            final(self).tracer == old(self).tracer,
            final(self).payload == old(self).payload,
            old(self).synced() ==> final(self).synced(),
    {
        self.trace_events_path = Some(path.to_owned());
    }

    /// Encodes one event and appends it to the payload.
    pub fn add_event(&mut self, event: TraceLowLevelEvent)
        requires
            old(self).synced(),
        ensures
            final(self).synced(),
            final(self).tracer.log() == old(self).tracer.log().push(event.model()),
            final(self).trace_events_path == old(self).trace_events_path,
    {
        enc_event_exec(&mut self.payload, &event);
        self.tracer.events.push(event);
        proof {
            broadcast use crate::recorder::lemma_event_models_push;

            lemma_enc_events_snoc(old(self).tracer.log(), event.model(), 0);
        }
    }

    /// Moves all events out of `events`, encoding each in order.
    #[verifier::loop_isolation(false)]
    pub fn append_events(&mut self, events: &mut Vec<TraceLowLevelEvent>)
        requires
            old(self).synced(),
        ensures
            final(self).synced(),
            final(self).tracer.log() == old(self).tracer.log() + event_models_of(old(events)@),
            final(events)@.len() == 0,
            final(self).trace_events_path == old(self).trace_events_path,
    {
        let ghost em = event_models_of(old(events)@);
        let ghost n = old(events)@.len() as int;
        while events.len() > 0
            invariant
                self.synced(),
                self.trace_events_path == old(self).trace_events_path,
                events@.len() <= n,
                event_models_of(events@) =~= em.subrange(
                    n - events@.len() as int,
                    n,
                ),
                self.tracer.log() == old(self).tracer.log() + em.subrange(
                    0,
                    n - events@.len() as int,
                ),
            decreases events@.len(),
        {
            let ghost k = n - events@.len() as int;
            let ghost pre = events@;
            let e = events.remove(0);
            proof {
                assert(event_models_of(pre)[0] == pre[0].model());
                assert(event_models_of(pre) == em.subrange(k, n));
                assert(e.model() == em[k]);
            }
            self.add_event(e);
            proof {
                assert(events@ =~= pre.subrange(1, pre.len() as int));
                assert forall|i: int|
                    0 <= i < events@.len() implies event_models_of(events@)[i] == em.subrange(
                    k + 1,
                    n,
                )[i] by {
                    assert(events@[i] == pre[1 + i]);
                    assert(event_models_of(pre)[1 + i] == pre[1 + i].model());
                    assert(em.subrange(k, n)[1 + i] == em[k + 1 + i]);
                }
                assert(event_models_of(events@) =~= em.subrange(k + 1, n));
                assert(old(self).tracer.log() + em.subrange(0, k + 1) =~= (old(self).tracer.log()
                    + em.subrange(0, k)).push(em[k]));
            }
        }
        proof {
            assert(em.subrange(0, n) =~= em);
        }
    }

    /// Remembers where the metadata file is to be stored.
    pub fn begin_writing_trace_metadata(&mut self, path: &str)
        ensures
            final(self).trace_metadata_path matches Some(p) && p@ == path@,
            final(self).tracer == old(self).tracer,
            final(self).payload == old(self).payload,
            final(self).trace_events_path == old(self).trace_events_path,
            old(self).synced() ==> final(self).synced(),
    {
        self.trace_metadata_path = Some(path.to_owned());
    }

    /// Remembers where the path-list file is to be stored.
    pub fn begin_writing_trace_paths(&mut self, path: &str)
        ensures
            final(self).trace_paths_path matches Some(p) && p@ == path@,
            final(self).tracer == old(self).tracer,
            final(self).payload == old(self).payload,
            final(self).trace_events_path == old(self).trace_events_path,
            old(self).synced() ==> final(self).synced(),
    {
        self.trace_paths_path = Some(path.to_owned());
    }

    /// Returns the run metadata to be stored as the metadata side file.
    /// Must follow `begin_writing_trace_metadata`.
    pub fn finish_writing_trace_metadata(&self) -> (r: TraceMetadata)
        requires
            self.trace_metadata_path is Some,
        ensures
            r.model() == (MetadataModel {
                program: self.tracer.data.program@,
                args: crate::model::str_models_of(self.tracer.data.args@),
                workdir: self.tracer.data.workdir@,
            }),
    {
        TraceMetadata {
            program: self.tracer.data.program.clone(),
            args: crate::recorder::clone_strings(&self.tracer.data.args),
            workdir: self.tracer.data.workdir.clone(),
        }
    }

    /// Returns the interned path list to be stored as the path side file.
    /// Must follow `begin_writing_trace_paths`.
    pub fn finish_writing_trace_paths(&self) -> (r: Vec<String>)
        requires
            self.trace_paths_path is Some,
        ensures
            crate::model::str_models_of(r@) == crate::model::str_models_of(
                self.tracer.data.path_list@,
            ),
    {
        crate::recorder::clone_strings(&self.tracer.data.path_list)
    }

    /// Compresses the payload, frames it, and returns the finished file
    /// bytes.  Must follow `begin_writing_trace_events`.  Always succeeds.
    pub fn finish_writing_trace_events(&self) -> (r: Result<Vec<u8>, TraceError>)
        requires
            self.trace_events_path is Some,
            self.synced(),
        ensures
            r matches Ok(out) && out@ == spec_encode_v1(self.tracer.log()),
    {
        encode_trace_v1(&self.tracer.events)
    }
}

/// The reader strategy for the plain serialization format.  That format is
/// serde-based and decoded by the embedding application, so this strategy
/// only names the choice.
pub struct JsonTraceReader {}

/// The reader strategy for the two binary formats, which are detected by
/// their headers.
pub struct BinaryTraceReader {}

impl BinaryTraceReader {
    /// Decodes a binary trace file of either version.
    pub fn load_trace_events(&self, data: &Vec<u8>) -> (r: Result<
        Vec<TraceLowLevelEvent>,
        TraceError,
    >)
        ensures
            !(data@.len() >= 8 && (data@.subrange(0, 8) == header_v0() || data@.subrange(0, 8)
                == header_v1())) ==> r == Err::<Vec<TraceLowLevelEvent>, TraceError>(
                TraceError::UnknownFormat,
            ),
            forall|ms: Seq<EventModel>|
                #[trigger] v0_encoding_of(data@, ms) ==> (r matches Ok(es) && event_models_of(es@)
                    == degrade_events_from(ms, 0)),
            forall|ms: Seq<EventModel>|
                events_fit_from(ms, 0) && data@ == #[trigger] spec_encode_v1(ms) ==> (r matches Ok(
                    es,
                ) && event_models_of(es@) == ms),
    {
        decode_trace_auto(data)
    }
}

/// A reader strategy, resolved once from the requested format.
pub enum TraceReader {
    Json(JsonTraceReader),
    Binary(BinaryTraceReader),
}

impl TraceReader {
    /// Decodes a trace file's bytes under this strategy.  The plain
    /// serialization strategy is handled by the embedding application and
    /// refused here.
    pub fn load_trace_events(&self, data: &Vec<u8>) -> (r: Result<
        Vec<TraceLowLevelEvent>,
        TraceError,
    >)
        ensures
            self is Binary ==> {
                &&& !(data@.len() >= 8 && (data@.subrange(0, 8) == header_v0() || data@.subrange(
                    0,
                    8,
                ) == header_v1())) ==> r == Err::<Vec<TraceLowLevelEvent>, TraceError>(
                    TraceError::UnknownFormat,
                )
                &&& forall|ms: Seq<EventModel>|
                    #[trigger] v0_encoding_of(data@, ms) ==> (r matches Ok(es)
                        && event_models_of(es@) == degrade_events_from(ms, 0))
                &&& forall|ms: Seq<EventModel>|
                    events_fit_from(ms, 0) && data@ == #[trigger] spec_encode_v1(ms) ==> (r
                        matches Ok(es) && event_models_of(es@) == ms)
            },
            self is Json ==> r == Err::<Vec<TraceLowLevelEvent>, TraceError>(
                TraceError::UnsupportedFormat,
            ),
    {
        match self {
            TraceReader::Json(_) => Err(TraceError::UnsupportedFormat),
            TraceReader::Binary(reader) => reader.load_trace_events(data),
        }
    }
}

/// Picks the reader strategy for a format: both binary formats share the
/// header-detecting reader.
pub fn create_trace_reader(format: TraceEventsFileFormat) -> (r: TraceReader)
    ensures
        format == TraceEventsFileFormat::Json ==> r is Json,
        format != TraceEventsFileFormat::Json ==> r is Binary,
{
    match format {
        TraceEventsFileFormat::Json => TraceReader::Json(JsonTraceReader {}),
        TraceEventsFileFormat::BinaryV0 => TraceReader::Binary(BinaryTraceReader {}),
        TraceEventsFileFormat::Binary => TraceReader::Binary(BinaryTraceReader {}),
    }
}

/// A writer strategy, resolved once from the requested format: the formats
/// that need the whole collection buffer it; the streaming format encodes
/// incrementally.
pub enum TraceWriter {
    NonStreaming(NonStreamingTraceWriter),
    Streaming(StreamingTraceWriter),
}

impl TraceWriter {
    /// The streaming strategy's payload stays in step with its log.
    pub open spec fn wf(&self) -> bool {
        match self {
            TraceWriter::NonStreaming(_) => true,
            TraceWriter::Streaming(w) => w.synced(),
        }
    }

    /// The models of the events accepted so far.
    pub open spec fn log(&self) -> Seq<EventModel> {
        match self {
            TraceWriter::NonStreaming(w) => w.tracer.log(),
            TraceWriter::Streaming(w) => w.tracer.log(),
        }
    }

    /// True once `begin_writing_trace_events` has been called.
    pub open spec fn events_begun(&self) -> bool {
        match self {
            TraceWriter::NonStreaming(w) => w.trace_events_path is Some,
            TraceWriter::Streaming(w) => w.trace_events_path is Some,
        }
    }

    /// Remembers where the events file is to be stored, returning the
    /// updated strategy.
    pub fn begin_writing_trace_events(self, path: &str) -> (r: TraceWriter)
        requires
            self.wf(),
        ensures
            r.wf(),
            r.events_begun(),
            r.log() == self.log(),
    {
        match self {
            TraceWriter::NonStreaming(mut w) => {
                proof {
                    assert(self == TraceWriter::NonStreaming(w));
                }
                w.begin_writing_trace_events(path);
                TraceWriter::NonStreaming(w)
            },
            TraceWriter::Streaming(mut w) => {
                proof {
                    assert(self == TraceWriter::Streaming(w));
                }
                w.begin_writing_trace_events(path);
                TraceWriter::Streaming(w)
            },
        }
    }

    /// Accepts one event in replay order, returning the updated strategy.
    pub fn add_event(self, event: TraceLowLevelEvent) -> (r: TraceWriter)
        requires
            self.wf(),
        ensures
            r.wf(),
            r.log() == self.log().push(event.model()),
            r.events_begun() == self.events_begun(),
    {
        match self {
            TraceWriter::NonStreaming(mut w) => {
                proof {
                    assert(self == TraceWriter::NonStreaming(w));
                    assert(self.log() == w.tracer.log());
                }
                w.add_event(event);
                proof {
                    assert(w.tracer.log() == self.log().push(event.model()));
                    assert(TraceWriter::NonStreaming(w).log() == w.tracer.log());
                }
                TraceWriter::NonStreaming(w)
            },
            TraceWriter::Streaming(mut w) => {
                proof {
                    assert(self == TraceWriter::Streaming(w));
                    assert(self.log() == w.tracer.log());
                }
                w.add_event(event);
                proof {
                    assert(w.tracer.log() == self.log().push(event.model()));
                    assert(TraceWriter::Streaming(w).log() == w.tracer.log());
                }
                TraceWriter::Streaming(w)
            },
        }
    }

    /// Moves all events out of `events` in replay order, returning the
    /// updated strategy.
    pub fn append_events(self, events: &mut Vec<TraceLowLevelEvent>) -> (r: TraceWriter)
        requires
            self.wf(),
        ensures
            r.wf(),
            r.log() == self.log() + event_models_of(old(events)@),
            final(events)@.len() == 0,
            r.events_begun() == self.events_begun(),
    {
        match self {
            TraceWriter::NonStreaming(mut w) => {
                proof {
                    assert(self == TraceWriter::NonStreaming(w));
                    assert(self.log() == w.tracer.log());
                }
                w.append_events(events);
                proof {
                    assert(w.tracer.log() == self.log() + event_models_of(old(events)@));
                }
                TraceWriter::NonStreaming(w)
            },
            TraceWriter::Streaming(mut w) => {
                proof {
                    assert(self == TraceWriter::Streaming(w));
                    assert(self.log() == w.tracer.log());
                }
                w.append_events(events);
                proof {
                    assert(w.tracer.log() == self.log() + event_models_of(old(events)@));
                }
                TraceWriter::Streaming(w)
            },
        }
    }

    /// Produces the finished file bytes for the accepted events, in the
    /// format the strategy was created for.
    pub fn finish_writing_trace_events(&self) -> (r: Result<Vec<u8>, TraceError>)
        requires
            self.wf(),
            self.events_begun(),
        ensures
            self is Streaming ==> (r matches Ok(out) && out@ == spec_encode_v1(self.log())),
            self matches TraceWriter::NonStreaming(w) ==> {
                &&& w.format == TraceEventsFileFormat::Binary ==> (r matches Ok(out) && out@
                    == spec_encode_v1(self.log()))
                &&& w.format == TraceEventsFileFormat::BinaryV0 ==> {
                    &&& (r is Ok <==> v0_events_ok_from(self.log(), 0))
                    &&& (r matches Ok(out) ==> out@ == spec_encode_v0(self.log()))
                    &&& (r is Ok ==> v0_payload(self.log()).len() <= usize::MAX)
                }
                &&& w.format == TraceEventsFileFormat::Json ==> r == Err::<Vec<u8>, TraceError>(
                    TraceError::UnsupportedFormat,
                )
            },
    {
        match self {
            TraceWriter::NonStreaming(w) => w.finish_writing_trace_events(),
            TraceWriter::Streaming(w) => w.finish_writing_trace_events(),
        }
    }
}

/// Picks the writer strategy for a format: the plain serialization and the
/// legacy format buffer the whole collection; the streaming format writes
/// incrementally.
pub fn create_trace_writer(
    program: &str,
    args: &Vec<String>,
    workdir: &str,
    format: TraceEventsFileFormat,
) -> (r: TraceWriter)
    ensures
        r.wf(),
        r.log() == Seq::<EventModel>::empty(),
        format == TraceEventsFileFormat::Binary ==> r is Streaming,
        format != TraceEventsFileFormat::Binary ==> (r matches TraceWriter::NonStreaming(w)
            && w.format == format),
{
    match format {
        TraceEventsFileFormat::Json => {
            let mut w = NonStreamingTraceWriter::new(program, args, workdir);
            w.set_format(TraceEventsFileFormat::Json);
            TraceWriter::NonStreaming(w)
        },
        TraceEventsFileFormat::BinaryV0 => {
            let mut w = NonStreamingTraceWriter::new(program, args, workdir);
            w.set_format(TraceEventsFileFormat::BinaryV0);
            TraceWriter::NonStreaming(w)
        },
        TraceEventsFileFormat::Binary => {
            TraceWriter::Streaming(StreamingTraceWriter::new(program, args, workdir))
        },
    }
}

} // verus!
