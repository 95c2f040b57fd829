use runtime_tracing::format::{decode_trace_auto, decode_trace_v0, decode_trace_v1, encode_trace_v0, encode_trace_v1, TraceError};
use runtime_tracing::types::{
    FullValueRecord, Line, PathId, Place, StepRecord, TraceLowLevelEvent, TypeId, ValueRecord,
    VariableId,
};
use runtime_tracing::writers::{
    create_trace_reader, create_trace_writer, determine_file_format_from_name,
    TraceEventsFileFormat,
};

fn sample_events() -> Vec<TraceLowLevelEvent> {
    vec![
        TraceLowLevelEvent::Path("/test/path.small".to_string()),
        TraceLowLevelEvent::Step(StepRecord { path_id: PathId(0), line: Line(1) }),
        TraceLowLevelEvent::VariableName("x".to_string()),
        TraceLowLevelEvent::Value(FullValueRecord {
            variable_id: VariableId(0),
            value: ValueRecord::Int { i: 42, type_id: TypeId(0) },
        }),
        TraceLowLevelEvent::DropLastStep,
    ]
}

#[test]
fn test_binary_roundtrip_v0() {
    let events = sample_events();
    let data = encode_trace_v0(&events).unwrap();
    let back = decode_trace_v0(&data).unwrap();
    assert_eq!(events, back);
    let auto = decode_trace_auto(&data).unwrap();
    assert_eq!(events, auto);
}

#[test]
fn test_binary_roundtrip_v1() {
    let events = sample_events();
    let data = encode_trace_v1(&events).unwrap();
    let back = decode_trace_v1(&data).unwrap();
    assert_eq!(events, back);
    let auto = decode_trace_auto(&data).unwrap();
    assert_eq!(events, auto);
}

#[test]
fn sequence_of_ints_roundtrips_through_v1() {
    let events = vec![TraceLowLevelEvent::Value(FullValueRecord {
        variable_id: VariableId(0),
        value: ValueRecord::Sequence {
            elements: vec![
                ValueRecord::Int { i: 1, type_id: TypeId(3) },
                ValueRecord::Int { i: 2, type_id: TypeId(3) },
            ],
            is_slice: true,
            type_id: TypeId(7),
        },
    })];
    let data = encode_trace_v1(&events).unwrap();
    let back = decode_trace_v1(&data).unwrap();
    assert_eq!(events, back);
}

#[test]
fn bigint_roundtrips_exactly() {
    let events = vec![TraceLowLevelEvent::Value(FullValueRecord {
        variable_id: VariableId(0),
        value: ValueRecord::BigInt { b: vec![0x01, 0x00], negative: true, type_id: TypeId(2) },
    })];
    let v1 = decode_trace_v1(&encode_trace_v1(&events).unwrap()).unwrap();
    assert_eq!(events, v1);
    let v0 = decode_trace_v0(&encode_trace_v0(&events).unwrap()).unwrap();
    assert_eq!(events, v0);
}

#[test]
fn char_degrades_through_v0_but_not_v1() {
    let events = vec![TraceLowLevelEvent::Value(FullValueRecord {
        variable_id: VariableId(0),
        value: ValueRecord::Char { c: 'q', type_id: TypeId(5) },
    })];
    let v1 = decode_trace_v1(&encode_trace_v1(&events).unwrap()).unwrap();
    assert_eq!(events, v1);
    let v0 = decode_trace_v0(&encode_trace_v0(&events).unwrap()).unwrap();
    let expected = vec![TraceLowLevelEvent::Value(FullValueRecord {
        variable_id: VariableId(0),
        value: ValueRecord::Raw { r: "q".to_string(), type_id: TypeId(5) },
    })];
    assert_eq!(expected, v0);
}

#[test]
fn corrupted_headers_are_rejected() {
    let events = sample_events();
    for (encode, decode) in [
        (encode_trace_v0 as fn(&Vec<TraceLowLevelEvent>) -> Result<Vec<u8>, TraceError>,
         decode_trace_v0 as fn(&Vec<u8>) -> Result<Vec<TraceLowLevelEvent>, TraceError>),
        (encode_trace_v1, decode_trace_v1),
    ] {
        let good = encode(&events).unwrap();
        for idx in [0usize, 1, 2, 3, 4, 5, 6, 7] {
            let mut bad = good.clone();
            bad[idx] = bad[idx].wrapping_add(1);
            assert_eq!(decode(&bad), Err(TraceError::UnknownFormat));
        }
        let short = vec![0xC0u8, 0xDE];
        assert_eq!(decode(&short), Err(TraceError::UnknownFormat));
    }
}

#[test]
fn truncated_payload_is_malformed() {
    let events = sample_events();
    let mut data = encode_trace_v0(&events).unwrap();
    data.truncate(10);
    assert_eq!(decode_trace_v0(&data), Err(TraceError::Malformed));
    let mut garbage = encode_trace_v1(&events).unwrap();
    garbage.truncate(12);
    assert!(decode_trace_v1(&garbage).is_err());
}

#[test]
fn oversized_identifier_is_rejected_by_v0() {
    let events = vec![TraceLowLevelEvent::Step(StepRecord {
        path_id: PathId(usize::MAX),
        line: Line(1),
    })];
    assert_eq!(encode_trace_v0(&events), Err(TraceError::IdOutOfRange));
    assert!(encode_trace_v1(&events).is_ok());
}

#[test]
fn cell_value_has_no_type_identifier() {
    let events = vec![TraceLowLevelEvent::Value(FullValueRecord {
        variable_id: VariableId(1),
        value: ValueRecord::Cell { place: Place(9) },
    })];
    let back = decode_trace_v1(&encode_trace_v1(&events).unwrap()).unwrap();
    assert_eq!(events, back);
}

#[test]
fn writer_reader_roundtrip_through_the_facade() {
    for format in [TraceEventsFileFormat::BinaryV0, TraceEventsFileFormat::Binary] {
        let events = sample_events();
        let writer = create_trace_writer("", &vec![], "", format);
        let writer = writer.begin_writing_trace_events("trace.bin");
        let mut to_append = sample_events();
        let writer = writer.append_events(&mut to_append);
        assert!(to_append.is_empty());
        let data = writer.finish_writing_trace_events().unwrap();

        let reader = create_trace_reader(format);
        let back = reader.load_trace_events(&data).unwrap();
        assert_eq!(events, back);
    }
}

#[test]
fn json_strategy_is_handled_outside_the_library() {
    let writer = create_trace_writer("", &vec![], "", TraceEventsFileFormat::Json);
    let writer = writer.begin_writing_trace_events("trace.json");
    let r = writer.finish_writing_trace_events();
    assert_eq!(r, Err(TraceError::UnsupportedFormat));
    let reader = create_trace_reader(TraceEventsFileFormat::Json);
    assert_eq!(
        reader.load_trace_events(&vec![1, 2, 3]),
        Err(TraceError::UnsupportedFormat)
    );
}

#[test]
fn file_names_pick_the_format() {
    assert_eq!(
        determine_file_format_from_name("trace.json"),
        Some(TraceEventsFileFormat::Json)
    );
    assert_eq!(
        determine_file_format_from_name("trace.bin"),
        Some(TraceEventsFileFormat::Binary)
    );
    assert_eq!(determine_file_format_from_name("trace.txt"), None);
}
