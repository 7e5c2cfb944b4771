use mvecops::beorc::def::accept_lone;
use mvecops::beorc::def::choose_merged;
use mvecops::beorc::def::get_timing_rating;
use mvecops::beorc::def::is_alike;
use mvecops::beorc::def::join_runs;
use mvecops::beorc::def::reconstruct_instance;
use mvecops::beorc::def::reconstruct_traces;
use mvecops::beorc::def::trace_within_range;
use mvecops::beorc::def::DefinitionUnit;
use mvecops::beorc::def::ReconstructionReport;
use mvecops::beorc::def::Trace;
use mvecops::beorc::training::cast_ballots;
use mvecops::beorc::training::choose_guard;
use mvecops::beorc::training::collect_positive;
use mvecops::beorc::training::combine_into_trace;
use mvecops::beorc::training::train_definition;
use mvecops::beorc::training::train_trace_with;

type Told = (i64, Vec<i64>, (i64, i64), (i64, i64), i64);

fn definition(resolution: i64, id: &str, traces: Vec<(i64, Vec<i64>)>) -> DefinitionUnit {
    let mut unit = DefinitionUnit::new(resolution);
    unit.id = String::from(id);
    for (time_stamp, indexes) in traces {
        unit.feed(time_stamp, indexes);
    }
    unit
}

fn told(unit: &DefinitionUnit) -> Vec<Told> {
    unit.traces
        .iter()
        .map(|trace| {
            (
                trace.time_stamp,
                trace.indexes.clone(),
                (trace.trace.x, trace.trace.y),
                (trace.average_offset.x, trace.average_offset.y),
                trace.resolution,
            )
        })
        .collect()
}

fn reported(reports: &Vec<ReconstructionReport>) -> Vec<(Vec<i64>, Vec<i64>, bool)> {
    reports
        .iter()
        .map(|report| (report.base.clone(), report.check.clone(), report.accepted))
        .collect()
}

fn base_of_three() -> DefinitionUnit {
    definition(
        5,
        "bbeorrcc",
        vec![(0, vec![6, 7, 8]), (1, vec![14, 18, 23]), (2, vec![5, 10, 15, 20])],
    )
}

fn base_told() -> Vec<Told> {
    vec![
        (0, vec![6, 7, 8], (2, 0), (1, 0), 5),
        (1, vec![14, 18, 23], (-1, 2), (-1, 1), 5),
        (2, vec![5, 10, 15, 20], (0, 3), (0, 1), 5),
    ]
}

fn session() -> Vec<DefinitionUnit> {
    vec![
        definition(
            5,
            "Same data",
            vec![(0, vec![6, 7, 8]), (1, vec![14, 18, 23]), (2, vec![5, 10, 15, 20])],
        ),
        definition(
            5,
            "Bad data",
            vec![(0, vec![11, 16, 21, 22]), (1, vec![18, 24]), (2, vec![14, 9, 4])],
        ),
        definition(
            5,
            "Same data time + 1",
            vec![(0, vec![6, 7, 8]), (1, vec![14, 18, 23]), (3, vec![5, 10, 15, 20])],
        ),
        definition(
            5,
            "Same data bad timing",
            vec![(6, vec![6, 7, 8]), (3, vec![14, 18, 23]), (7, vec![5, 10, 15, 20])],
        ),
        definition(
            5,
            "Correction data 1 off",
            vec![(0, vec![6, 7, 8, 3]), (1, vec![14, 18, 23]), (2, vec![5, 10, 15, 20])],
        ),
        definition(
            5,
            "Good trace bad ave",
            vec![
                (0, vec![6, 11, 16, 12, 18]),
                (1, vec![14, 18, 19, 24, 23]),
                (2, vec![0, 5, 10, 15, 20]),
            ],
        ),
        definition(
            5,
            "All up",
            vec![(0, vec![1, 2, 3]), (1, vec![9, 13, 18]), (2, vec![0, 5, 10, 15])],
        ),
        definition(
            5,
            "Split times",
            vec![
                (0, vec![6, 7]),
                (1, vec![8]),
                (2, vec![14]),
                (3, vec![18, 23]),
                (4, vec![5, 10]),
                (5, vec![15, 20]),
            ],
        ),
        definition(
            5,
            "Split times - 1",
            vec![(0, vec![6, 7, 8]), (1, vec![14]), (2, vec![18, 23]), (3, vec![5, 10, 15, 20])],
        ),
    ]
}

#[test]
fn range_of_trace_counts() {
    assert!(trace_within_range(3, 3));
    assert!(trace_within_range(3, 6));
    assert!(!trace_within_range(3, 7));
    assert!(!trace_within_range(3, 2));
    assert!(trace_within_range(0, 0));
    assert!(!trace_within_range(0, 1));
    assert!(trace_within_range(usize::MAX, usize::MAX));
}

#[test]
fn split_traces_are_merged_back() {
    let base = base_of_three();
    let instances = session();
    for position in [7, 8] {
        let mut reports: Vec<ReconstructionReport> = Vec::new();
        let result = reconstruct_traces(&base, &instances[position], &mut reports);
        assert_eq!(told(&result), base_told());
        assert_eq!(result.id, "bbeorrcc");
        assert_eq!(result.resolution, 5);
        assert_eq!(
            reported(&reports),
            vec![
                (vec![6, 7, 8], vec![6, 7, 8], true),
                (vec![14, 18, 23], vec![14, 18, 23], true),
                (vec![5, 10, 15, 20], vec![5, 10, 15, 20], true),
            ]
        );
    }
}

#[test]
fn unlike_traces_are_taken_and_not_accepted() {
    let base = base_of_three();
    let entry = definition(
        5,
        "x",
        vec![(9, vec![6, 7, 8]), (8, vec![1, 2]), (7, vec![14, 18, 23]), (6, vec![5, 10, 15, 20])],
    );
    let mut reports: Vec<ReconstructionReport> = Vec::new();
    let result = reconstruct_traces(&base, &entry, &mut reports);
    assert_eq!(
        told(&result),
        vec![
            (0, vec![6, 7, 8], (2, 0), (1, 0), 5),
            (1, vec![1, 2, 14, 18, 23], (2, 4), (1, 1), 5),
            (2, vec![5, 10, 15, 20], (0, 3), (0, 1), 5),
        ]
    );
    assert_eq!(
        reported(&reports),
        vec![
            (vec![6, 7, 8], vec![6, 7, 8], true),
            (vec![14, 18, 23], vec![1, 2, 14, 18, 23], false),
            (vec![5, 10, 15, 20], vec![5, 10, 15, 20], true),
        ]
    );
}

#[test]
fn traces_left_over_are_dropped() {
    let base = base_of_three();
    let entry = definition(
        5,
        "x",
        vec![
            (9, vec![20, 15]),
            (8, vec![24]),
            (7, vec![14, 18, 23]),
            (6, vec![5, 10, 15, 20]),
            (5, vec![3]),
        ],
    );
    let mut reports: Vec<ReconstructionReport> =
        vec![ReconstructionReport::new(vec![1], vec![2], false)];
    let result = reconstruct_traces(&base, &entry, &mut reports);
    assert_eq!(
        told(&result),
        vec![
            (0, vec![20, 15, 24], (4, 0), (1, -1), 5),
            (1, vec![14, 18, 23], (-1, 2), (-1, 1), 5),
            (2, vec![5, 10, 15, 20], (0, 3), (0, 1), 5),
        ]
    );
    assert_eq!(
        reported(&reports),
        vec![
            (vec![1], vec![2], false),
            (vec![6, 7, 8], vec![20, 15, 24], false),
            (vec![14, 18, 23], vec![14, 18, 23], true),
            (vec![5, 10, 15, 20], vec![5, 10, 15, 20], true),
        ]
    );
}

#[test]
fn single_trace_wins_when_it_is_closer_in_length() {
    let base = definition(5, "b", vec![(0, vec![6, 7, 8])]);
    let mut reports: Vec<ReconstructionReport> = Vec::new();
    let merged =
        reconstruct_traces(&base, &definition(5, "x", vec![(3, vec![6]), (4, vec![7, 8])]), &mut reports);
    assert_eq!(told(&merged), vec![(0, vec![6, 7, 8], (2, 0), (1, 0), 5)]);
    let single = reconstruct_traces(
        &base,
        &definition(5, "x", vec![(3, vec![6, 7, 8]), (4, vec![9])]),
        &mut reports,
    );
    assert_eq!(told(&single), vec![(0, vec![6, 7, 8], (2, 0), (1, 0), 5)]);
    let still = definition(5, "b", vec![(0, vec![12])]);
    let lone = reconstruct_traces(
        &still,
        &definition(5, "x", vec![(3, vec![12]), (4, vec![12])]),
        &mut reports,
    );
    assert_eq!(told(&lone), vec![(0, vec![12], (0, 0), (0, 0), 5)]);
    assert_eq!(reports.len(), 3);
    assert!(reports.iter().all(|report| report.accepted));
}

#[test]
fn last_trace_is_taken_alone() {
    let base = definition(5, "b", vec![(0, vec![6, 7, 8]), (1, vec![8, 7, 6])]);
    let entry = definition(5, "x", vec![(3, vec![6, 7, 8]), (4, vec![13, 12]), (5, vec![11])]);
    let mut reports: Vec<ReconstructionReport> = Vec::new();
    let result = reconstruct_traces(&base, &entry, &mut reports);
    assert_eq!(
        told(&result),
        vec![(0, vec![6, 7, 8], (2, 0), (1, 0), 5), (1, vec![13, 12, 11], (-2, 0), (-1, 0), 5)]
    );
    assert_eq!(
        reported(&reports),
        vec![(vec![6, 7, 8], vec![6, 7, 8], true), (vec![8, 7, 6], vec![13, 12, 11], true)]
    );
}

#[test]
fn merged_traces_are_read_by_the_resolution_of_the_base() {
    let base = definition(5, "b", vec![(0, vec![6, 7, 8, 9]), (1, vec![0, 5])]);
    let entry = definition(7, "x", vec![(3, vec![8, 9]), (4, vec![10, 11]), (5, vec![0, 7])]);
    let mut reports: Vec<ReconstructionReport> = Vec::new();
    let result = reconstruct_traces(&base, &entry, &mut reports);
    assert_eq!(
        told(&result),
        vec![(0, vec![8, 9, 10, 11], (-2, 1), (-1, 0), 5), (1, vec![0, 7], (0, 1), (0, 0), 7)]
    );
    assert_eq!(
        reported(&reports),
        vec![(vec![6, 7, 8, 9], vec![8, 9, 10, 11], false), (vec![0, 5], vec![0, 7], true)]
    );
}

#[test]
fn instance_stands_for_itself_outside_the_range() {
    let base = definition(5, "b", vec![(0, vec![6, 7, 8])]);
    let mut reports: Vec<ReconstructionReport> = Vec::new();
    let same = definition(5, "same", vec![(4, vec![6, 7, 8])]);
    let kept = reconstruct_instance(&base, &same, &mut reports);
    assert_eq!(kept.id, "same");
    assert_eq!(told(&kept), vec![(4, vec![6, 7, 8], (2, 0), (1, 0), 5)]);
    let many = definition(5, "many", vec![(0, vec![6]), (1, vec![7]), (2, vec![8])]);
    let kept = reconstruct_instance(&base, &many, &mut reports);
    assert_eq!(kept.id, "many");
    assert_eq!(kept.traces.len(), 3);
    let none = definition(5, "none", vec![]);
    let kept = reconstruct_instance(&base, &none, &mut reports);
    assert_eq!(kept.id, "none");
    assert_eq!(kept.traces.len(), 0);
    assert!(reports.is_empty());
}

#[test]
fn instance_is_replaced_by_its_reconstruction() {
    let base = base_of_three();
    let instances = session();
    let mut reports: Vec<ReconstructionReport> = Vec::new();
    let rebuilt = reconstruct_instance(&base, &instances[7], &mut reports);
    assert_eq!(rebuilt.id, "bbeorrcc");
    assert_eq!(told(&rebuilt), base_told());
    assert_eq!(reports.len(), 3);
}

#[test]
fn short_reconstruction_is_discarded() {
    let base = definition(5, "b", vec![(0, vec![6, 7, 8]), (1, vec![8, 7, 6]), (2, vec![1, 2])]);
    let entry = definition(
        5,
        "short",
        vec![(0, vec![6, 7]), (1, vec![8]), (2, vec![8, 7]), (3, vec![6])],
    );
    let mut reports: Vec<ReconstructionReport> = Vec::new();
    let kept = reconstruct_instance(&base, &entry, &mut reports);
    assert_eq!(kept.id, "short");
    assert_eq!(kept.traces.len(), 4);
    assert_eq!(reports.len(), 2);
}

#[test]
fn training_session_keeps_what_the_majority_holds() {
    let base = base_of_three();
    let mut instances = session();
    let mut reports: Vec<ReconstructionReport> = Vec::new();
    for position in 0..instances.len() {
        let rebuilt = reconstruct_instance(&base, &instances[position], &mut reports);
        instances[position] = rebuilt;
    }
    assert_eq!(reports.len(), 6);
    for instance in &instances {
        assert_eq!(instance.traces.len(), 3);
    }
    let valid: Vec<usize> = vec![0, 2, 4, 5, 6, 7, 8];
    let trained = train_definition(&base, &instances, &valid);
    assert_eq!(trained.id, "bbeorrcc");
    assert_eq!(trained.resolution, 5);
    assert_eq!(told(&trained), base_told());
}

#[test]
fn training_takes_up_what_all_instances_add() {
    let base = definition(5, "grown", vec![(0, vec![6, 7, 8])]);
    let instances = vec![
        definition(5, "a", vec![(0, vec![6, 7, 8, 9])]),
        definition(5, "b", vec![(0, vec![6, 7, 8, 9])]),
        definition(5, "c", vec![(0, vec![6, 7, 8, 9])]),
    ];
    let trained = train_definition(&base, &instances, &vec![0, 1, 2]);
    assert_eq!(trained.id, "grown");
    assert_eq!(told(&trained), vec![(0, vec![6, 7, 8, 9], (3, 0), (1, 0), 5)]);
}

#[test]
fn training_keeps_the_guard_of_the_base_on_a_tie() {
    let base = definition(5, "b", vec![(0, vec![6, 7, 8])]);
    let instances =
        vec![definition(5, "a", vec![(0, vec![6, 7, 9])]), definition(5, "b", vec![(0, vec![6, 7])])];
    let trained = train_definition(&base, &instances, &vec![0, 1]);
    assert_eq!(told(&trained), vec![(0, vec![6, 7, 8], (2, 0), (1, 0), 5)]);
    let untouched = train_definition(&base, &instances, &vec![]);
    assert_eq!(told(&untouched), vec![(0, vec![6, 7, 8], (2, 0), (1, 0), 5)]);
}

#[test]
fn training_counts_repeated_indexes() {
    let base = definition(5, "b", vec![(0, vec![6, 7, 8])]);
    let instances = vec![
        definition(5, "a", vec![(0, vec![11, 12, 12, 13])]),
        definition(5, "b", vec![(0, vec![6, 12, 8])]),
        definition(5, "c", vec![(0, vec![8, 7, 6])]),
    ];
    let trained = train_definition(&base, &instances, &vec![0, 1, 2]);
    assert_eq!(told(&trained), vec![(0, vec![6, 7, 12, 8], (2, 0), (1, 0), 5)]);
    let fewer = train_definition(&base, &instances, &vec![0, 2]);
    assert_eq!(told(&fewer), vec![(0, vec![6, 7, 12, 8], (2, 0), (1, 0), 5)]);
}

#[test]
fn training_follows_a_single_instance() {
    let base = definition(5, "b", vec![(4, vec![8, 7, 6, 7, 8])]);
    let instances = vec![definition(5, "a", vec![(0, vec![0])])];
    let trained = train_definition(&base, &instances, &vec![0]);
    assert_eq!(told(&trained), vec![(4, vec![0, 0], (0, 0), (0, 0), 5)]);
}

#[test]
fn ballots_are_counted_in_units_of_the_valid_instances() {
    let base = Trace::new(0, vec![1, 2], 2);
    let instances = vec![
        definition(2, "a", vec![(0, vec![2, 2, 3])]),
        definition(2, "skipped", vec![(0, vec![0])]),
        definition(2, "c", vec![(0, vec![1])]),
    ];
    let ballots = cast_ballots(&base, &instances, &vec![0, 2], 0, 4);
    assert_eq!(ballots.content, vec![-2, 2, 4, 0]);
    assert_eq!(ballots.vanguard, vec![-2, 2, 0, -2]);
    assert_eq!(ballots.rearguard, vec![-2, 0, 0, 0]);
    let alone = cast_ballots(&base, &instances, &vec![], 0, 4);
    assert_eq!(alone.content, vec![0, 1, 1, 0]);
    assert_eq!(alone.vanguard, vec![0, 1, 0, 0]);
    assert_eq!(alone.rearguard, vec![0, 0, 1, 0]);
}

#[test]
fn guard_is_the_first_greatest_ballot() {
    assert_eq!(choose_guard(&vec![-3, 1, 3, 1], 4, 3, 9), 2);
    assert_eq!(choose_guard(&vec![-3, 3, 3, 1], 4, 3, 9), 9);
    assert_eq!(choose_guard(&vec![3, 3, 5, 1], 4, 3, 9), 2);
    assert_eq!(choose_guard(&vec![-3, -3, -3], 3, 3, 9), 9);
    assert_eq!(choose_guard(&vec![-4, -4], 2, 3, 9), 9);
    assert_eq!(choose_guard(&vec![-4], 1, 3, 9), 0);
    assert_eq!(choose_guard(&vec![-4, -9], 2, 3, 9), 0);
    assert_eq!(choose_guard(&vec![5, 1], 0, 3, 9), 0);
    assert_eq!(choose_guard(&vec![1, 5, 9], 2, 3, 7), 1);
}

#[test]
fn guards_within_a_hundredth_of_a_vote_are_tied() {
    assert_eq!(choose_guard(&vec![0, 300, 298, 0], 4, 201, 9), 9);
    assert_eq!(choose_guard(&vec![0, 300, 298, 0], 4, 200, 9), 1);
    assert_eq!(choose_guard(&vec![0, 298, 300, 0], 4, 201, 9), 9);
    assert_eq!(choose_guard(&vec![0, 298, 300, 0], 4, 200, 9), 2);
}

#[test]
fn positive_cells_are_collected_in_order() {
    assert_eq!(collect_positive(&vec![0, 3, -1, 1, 0, 7]), vec![1, 3, 5]);
    assert_eq!(collect_positive(&vec![]), Vec::<i64>::new());
}

#[test]
fn combined_run_has_each_index_once() {
    let trace = combine_into_trace(vec![3, 6, 7, 7, 8, 9, 6], 6, 9, &4, &5);
    assert_eq!(trace.indexes, vec![6, 3, 7, 8, 9]);
    assert_eq!(trace.time_stamp, 4);
    assert_eq!(trace.resolution, 5);
    assert_eq!((trace.trace.x, trace.trace.y), (3, 0));
    let same = combine_into_trace(vec![], 6, 6, &0, &5);
    assert_eq!(same.indexes, vec![6, 6]);
}

#[test]
fn trace_is_trained_from_its_ballots() {
    let base = Trace::new(3, vec![1, 2], 2);
    let trained =
        train_trace_with(&base, &vec![-2, 2, 4, 0], &vec![-2, 2, 0, -2], &vec![-2, 0, 0, 0], 2);
    assert_eq!(trained.indexes, vec![1, 2]);
    assert_eq!(trained.time_stamp, 3);
    assert_eq!(trained.resolution, 2);
}

#[test]
fn likeness_needs_both_vectors() {
    let base = Trace::new(0, vec![6, 7, 8], 5);
    assert!(is_alike(&base, &Trace::new(0, vec![11, 12, 13, 14], 5)));
    assert!(!is_alike(&base, &Trace::new(0, vec![6, 11, 16], 5)));
    assert!(!is_alike(&base, &Trace::new(0, vec![6, 1, 8], 5)));
}

#[test]
fn merged_trace_is_chosen_by_likeness_and_length() {
    let base = Trace::new(0, vec![6, 7, 8], 5);
    let single = Trace::new(0, vec![6], 5);
    let merged = Trace::new(0, vec![6, 7, 8], 5);
    assert!(choose_merged(&base, &single, &merged));
    let whole = Trace::new(0, vec![6, 7, 8], 5);
    let longer = Trace::new(0, vec![6, 7, 8, 9], 5);
    assert!(!choose_merged(&base, &whole, &longer));
    let off = Trace::new(0, vec![6, 7, 8, 14], 5);
    assert!(!choose_merged(&base, &whole, &off));
}

#[test]
fn lone_trace_needs_two_of_three() {
    let base = Trace::new(0, vec![6, 7, 8], 5);
    assert!(accept_lone(&base, &Trace::new(0, vec![11, 12, 13], 5)));
    assert!(accept_lone(&base, &Trace::new(0, vec![11, 12, 13, 14, 10, 14], 5)));
    assert!(!accept_lone(&base, &Trace::new(0, vec![11, 16, 21], 5)));
    assert!(!accept_lone(&base, &Trace::new(0, vec![11, 16], 5)));
    assert!(accept_lone(&base, &Trace::new(0, vec![6, 7, 13], 5)));
}

#[test]
fn runs_are_joined_in_order() {
    assert_eq!(join_runs(&vec![1, 2], &vec![3]), vec![1, 2, 3]);
    assert_eq!(join_runs(&vec![], &vec![]), Vec::<i64>::new());
}

#[test]
fn timing_is_rated_in_shares_of_the_resolution() {
    let base = base_of_three();
    let instances = session();
    assert_eq!(get_timing_rating(&base, &instances[0]), (15, 15));
    assert_eq!(get_timing_rating(&base, &instances[2]), (10, 15));
    assert_eq!(get_timing_rating(&base, &instances[3]), (0, 15));
    assert_eq!(get_timing_rating(&base, &instances[7]), (15, 15));
    assert_eq!(get_timing_rating(&base, &definition(5, "none", vec![])), (0, 15));
    assert_eq!(get_timing_rating(&definition(5, "none", vec![]), &base), (0, 0));
}

#[test]
fn timing_shares_fall_with_the_difference() {
    let base = definition(20, "b", vec![(10, vec![6]), (10, vec![6]), (10, vec![6]), (10, vec![6])]);
    let entry = definition(20, "e", vec![(10, vec![6]), (11, vec![6]), (7, vec![6]), (14, vec![6])]);
    assert_eq!(get_timing_rating(&base, &entry), (20 + 15 + 5, 80));
    let still = definition(0, "s", vec![]);
    assert_eq!(get_timing_rating(&still, &entry), (0, 0));
    let mut turned = definition(20, "t", vec![(10, vec![6])]);
    turned.resolution = -20;
    assert_eq!(get_timing_rating(&turned, &entry), (0, -20));
}

#[test]
fn a_tie_counts_before_the_leading_cell_and_behind_it() {
    assert_eq!(choose_guard(&vec![199, 200], 2, 200, 7), 7);
    assert_eq!(choose_guard(&vec![200, 199], 2, 200, 7), 7);
    assert_eq!(choose_guard(&vec![198, 200], 2, 200, 7), 1);
    assert_eq!(choose_guard(&vec![200, 198], 2, 200, 7), 0);
    assert_eq!(choose_guard(&vec![199, 0, 200], 2, 200, 7), 0);
}
