use mvecops::beorc::def::DefinitionUnit;
use mvecops::beorc::def::ReconstructionReport;
use mvecops::beorc::def::Trace;

#[test]
fn trace_values_on_feed() {
    let mut dunit_sample: DefinitionUnit = DefinitionUnit::new(5);
    let trace_1: Vec<i64> = vec![6, 7, 8];
    let trace_2: Vec<i64> = vec![14, 18, 23];
    let trace_3: Vec<i64> = vec![5, 10, 15, 20];

    dunit_sample.feed(0, trace_1);
    dunit_sample.feed(1, trace_2);
    dunit_sample.feed(2, trace_3);

    assert_eq!(3, dunit_sample.traces[0].indexes.len());
    assert_eq!((2, 0), (dunit_sample.traces[0].trace.x, dunit_sample.traces[0].trace.y));
    assert_eq!(
        (1, 0),
        (dunit_sample.traces[0].average_offset.x, dunit_sample.traces[0].average_offset.y)
    );

    assert_eq!(3, dunit_sample.traces[1].indexes.len());
    assert_eq!((-1, 2), (dunit_sample.traces[1].trace.x, dunit_sample.traces[1].trace.y));
    assert_eq!(
        (-1, 1),
        (dunit_sample.traces[1].average_offset.x, dunit_sample.traces[1].average_offset.y)
    );

    assert_eq!(4, dunit_sample.traces[2].indexes.len());
    assert_eq!((0, 3), (dunit_sample.traces[2].trace.x, dunit_sample.traces[2].trace.y));
    assert_eq!(
        (0, 1),
        (dunit_sample.traces[2].average_offset.x, dunit_sample.traces[2].average_offset.y)
    );
}

#[test]
fn new_definition_is_empty_and_named() {
    let unit = DefinitionUnit::new(5);
    assert_eq!(unit.id, "bbeorrcc");
    assert_eq!(unit.resolution, 5);
    assert_eq!(unit.traces.len(), 0);
}

#[test]
fn feed_keeps_time_stamp_and_resolution() {
    let mut unit = DefinitionUnit::new(5);
    unit.feed(7, vec![6, 7, 8]);
    assert_eq!(unit.traces.len(), 1);
    assert_eq!(unit.traces[0].time_stamp, 7);
    assert_eq!(unit.traces[0].resolution, 5);
    assert_eq!(unit.traces[0].indexes, vec![6, 7, 8]);
}

#[test]
fn trace_of_a_single_index() {
    let trace = Trace::new(3, vec![12], 5);
    assert_eq!((trace.trace.x, trace.trace.y), (0, 0));
    assert_eq!((trace.average_offset.x, trace.average_offset.y), (0, 0));
}

#[test]
fn average_offset_is_rounded_down() {
    let trace = Trace::new(0, vec![24, 0, 1], 5);
    assert_eq!((trace.trace.x, trace.trace.y), (-3, -4));
    assert_eq!((trace.average_offset.x, trace.average_offset.y), (-3, -3));
    let backwards = Trace::new(0, vec![-7, -1], 5);
    assert_eq!((backwards.trace.x, backwards.trace.y), (1, 1));
    assert_eq!((backwards.average_offset.x, backwards.average_offset.y), (0, 0));
}

#[test]
fn empty_trace_is_marked() {
    let trace = Trace::empty();
    assert_eq!(trace.time_stamp, -1);
    assert!(trace.indexes.is_empty());
    assert_eq!((trace.trace.x, trace.trace.y), (0, 0));
    assert_eq!((trace.average_offset.x, trace.average_offset.y), (0, 0));
    assert_eq!(trace.resolution, 0);
}

#[test]
fn clones_hold_the_same() {
    let mut unit = DefinitionUnit::new(5);
    unit.id = String::from("Same data");
    unit.feed(0, vec![6, 7, 8]);
    let copy = unit.clone();
    assert_eq!(copy.id, "Same data");
    assert_eq!(copy.resolution, 5);
    assert_eq!(copy.traces.len(), 1);
    assert_eq!(copy.traces[0].indexes, vec![6, 7, 8]);
    assert_eq!((copy.traces[0].trace.x, copy.traces[0].trace.y), (2, 0));
}

#[test]
fn reconstruction_report_holds_its_parts() {
    let report = ReconstructionReport::new(vec![1, 2], vec![3], true);
    assert_eq!(report.base, vec![1, 2]);
    assert_eq!(report.check, vec![3]);
    assert!(report.accepted);
}
