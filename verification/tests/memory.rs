use graph_embedding::columns::{
    accumulate_column, initial_value, initialize_column, scale, scale_column, ColumnTask,
};
use graph_embedding::embedding::{calculate_embeddings, sum_squares, MatrixMultiplicator};
use graph_embedding::output::Emission;
use graph_embedding::sparse::{Entry, SparseSource};

fn bits(values: &[f32]) -> Vec<u32> {
    values.iter().map(|v| v.to_bits()).collect()
}

fn floats(patterns: &[u32]) -> Vec<f32> {
    patterns.iter().map(|b| f32::from_bits(*b)).collect()
}

fn norm(vector: &[u32]) -> f32 {
    floats(vector).iter().map(|v| v * v).sum::<f32>().sqrt()
}

fn chain_source() -> SparseSource {
    SparseSource {
        hashes: vec![10, 20, 30],
        occurrences: vec![4, 5, 6],
        entries: vec![Entry { row: 0, col: 1, value: 1.0f32.to_bits() }],
    }
}

fn all_names(count: usize) -> Vec<Option<String>> {
    (0..count).map(|j| Some(format!("entity{}", j))).collect()
}

fn data_records(out: &[Emission]) -> Vec<(String, u32, Vec<u32>)> {
    let mut records = Vec::new();
    for emission in out {
        if let Emission::Data { entity, occur_count, vector } = emission {
            records.push((entity.clone(), *occur_count, vector.clone()));
        }
    }
    records
}

#[test]
fn well_formed_source_is_accepted() {
    assert!(chain_source().is_well_formed());
    assert_eq!(chain_source().get_entity_counter(), 3);
    assert_eq!(chain_source().get_amount_of_data(), 1);
}

#[test]
fn entry_out_of_range_is_rejected() {
    let mut source = chain_source();
    source.entries.push(Entry { row: 3, col: 0, value: 0 });
    assert!(!source.is_well_formed());
    let mut source = chain_source();
    source.entries.push(Entry { row: 0, col: 3, value: 0 });
    assert!(!source.is_well_formed());
}

#[test]
fn occurrence_table_of_another_length_is_rejected() {
    let mut source = chain_source();
    source.occurrences.pop();
    assert!(!source.is_well_formed());
}

#[test]
fn initialize_column_holds_the_initial_values() {
    let hashes = vec![10i64, -1, 30];
    let column = initialize_column(&hashes, 1, vec![9; 3]);
    assert_eq!(column, vec![initial_value(10, 1), 0, initial_value(30, 1)]);
}

#[test]
fn initialize_builds_one_column_for_each_dimension() {
    let source = chain_source();
    let mult = MatrixMultiplicator { dimension: 2, sparse_matrix_id: String::from("m"), source: &source };
    let init = mult.initialize();
    assert!(mult.has_shape(&init));
    assert_eq!(init.len(), 2);
    for i in 0..2u16 {
        for j in 0..3usize {
            assert_eq!(init[i as usize][j], initial_value(source.hashes[j], i));
        }
    }
}

#[test]
fn initialize_leaves_unused_slots_at_zero() {
    let source = SparseSource { hashes: vec![-1, 20, -1], occurrences: vec![0, 1, 0], entries: vec![] };
    let mult = MatrixMultiplicator { dimension: 3, sparse_matrix_id: String::from("m"), source: &source };
    let init = mult.initialize();
    for i in 0..3usize {
        assert_eq!(init[i][0], 0);
        assert_eq!(init[i][2], 0);
        assert_ne!(init[i][1], 0);
    }
}

#[test]
fn zero_2d_is_all_zeros() {
    let zeros = MatrixMultiplicator::zero_2d(3, 2);
    assert_eq!(zeros, vec![vec![0u32; 3], vec![0u32; 3]]);
    assert_eq!(MatrixMultiplicator::zero_2d(0, 2), vec![Vec::<u32>::new(), Vec::<u32>::new()]);
    assert_eq!(MatrixMultiplicator::zero_2d(3, 0), Vec::<Vec<u32>>::new());
}

#[test]
fn has_shape_rejects_other_shapes() {
    let source = chain_source();
    let mult = MatrixMultiplicator { dimension: 2, sparse_matrix_id: String::from("m"), source: &source };
    assert!(mult.has_shape(&vec![vec![0; 3], vec![0; 3]]));
    assert!(!mult.has_shape(&vec![vec![0; 3]]));
    assert!(!mult.has_shape(&vec![vec![0; 3], vec![0; 2]]));
}

#[test]
fn accumulate_column_adds_weighted_cells() {
    let previous = bits(&[1.5, 2.0, -3.0]);
    let entries = vec![
        Entry { row: 0, col: 1, value: 0.5f32.to_bits() },
        Entry { row: 0, col: 2, value: 2.0f32.to_bits() },
        Entry { row: 2, col: 0, value: 3.0f32.to_bits() },
    ];
    let next = accumulate_column(&previous, &entries, vec![0; 3]);
    assert_eq!(floats(&next), vec![2.0 * 0.5 + -3.0 * 2.0, 0.0, 1.5 * 3.0]);
}

#[test]
fn accumulate_column_rounds_as_single_precision_does() {
    let previous = bits(&[0.1, 0.7, 1.0e-3]);
    let entries = vec![
        Entry { row: 1, col: 0, value: 0.3f32.to_bits() },
        Entry { row: 1, col: 1, value: 0.9f32.to_bits() },
        Entry { row: 1, col: 2, value: 123.456f32.to_bits() },
    ];
    let next = accumulate_column(&previous, &entries, vec![0; 3]);
    let mut expected = 0.0f32;
    expected += 0.1f32 * 0.3f32;
    expected += 0.7f32 * 0.9f32;
    expected += 1.0e-3f32 * 123.456f32;
    assert_eq!(next[1], expected.to_bits());
    assert_eq!(next[0], 0);
}

#[test]
fn accumulate_column_without_entries_is_zero() {
    let previous = bits(&[1.0, 2.0]);
    assert_eq!(accumulate_column(&previous, &Vec::new(), vec![0; 2]), vec![0, 0]);
}

#[test]
fn sum_squares_adds_across_columns() {
    let res = vec![bits(&[3.0, 0.0, 0.1]), bits(&[4.0, 0.0, 0.2])];
    let sums = sum_squares(&res, 3);
    let third = 0.0f32 + 0.1f32 * 0.1f32 + 0.2f32 * 0.2f32;
    assert_eq!(sums, vec![25.0f32.to_bits(), 0, third.to_bits()]);
}

#[test]
fn scale_divides_by_the_root_of_the_sum() {
    assert_eq!(scale(3.0f32.to_bits(), 25.0f32.to_bits()), 0.6f32.to_bits());
    assert_eq!(scale(0.3f32.to_bits(), 0.7f32.to_bits()), (0.3f32 / 0.7f32.sqrt()).to_bits());
}

#[test]
fn scale_keeps_the_cell_when_the_sum_is_zero() {
    assert_eq!(scale(0, 0), 0);
    assert_eq!(scale(1.0e-30f32.to_bits(), 0), 1.0e-30f32.to_bits());
    assert_eq!(scale(5.0f32.to_bits(), 0x8000_0000), 5.0f32.to_bits());
}

#[test]
fn scale_column_scales_each_cell_by_its_own_sum() {
    let column = bits(&[3.0, 7.0, 1.0]);
    let sums = bits(&[9.0, 0.0, 16.0]);
    assert_eq!(floats(&scale_column(column, &sums)), vec![1.0, 7.0, 0.25]);
}

#[test]
fn normalize_gives_unit_vectors() {
    let source = chain_source();
    let mult = MatrixMultiplicator { dimension: 2, sparse_matrix_id: String::from("m"), source: &source };
    let res = mult.normalize(vec![bits(&[3.0, 0.0, 1.0]), bits(&[4.0, 0.0, 1.0])]);
    assert_eq!(floats(&res[0]), vec![0.6, 0.0, 1.0 / 2.0f32.sqrt()]);
    assert_eq!(floats(&res[1]), vec![0.8, 0.0, 1.0 / 2.0f32.sqrt()]);
}

#[test]
fn next_power_moves_the_source_column_cell() {
    let source = chain_source();
    let mult = MatrixMultiplicator { dimension: 2, sparse_matrix_id: String::from("m"), source: &source };
    let old = vec![bits(&[0.1, 0.2, 0.3]), bits(&[0.4, 0.5, 0.6])];
    let new = mult.next_power(old.clone());
    for i in 0..2 {
        assert_eq!(new[i][0], old[i][1]);
        assert_eq!(new[i][1], 0);
        assert_eq!(new[i][2], 0);
    }
}

#[test]
fn propagate_zero_rounds_returns_the_matrix() {
    let source = chain_source();
    let mult = MatrixMultiplicator { dimension: 2, sparse_matrix_id: String::from("m"), source: &source };
    let start = vec![bits(&[0.1, 0.2, 0.3]), bits(&[0.4, 0.5, 0.6])];
    assert_eq!(mult.propagate(0, start.clone()), start);
}

#[test]
fn propagate_repeats_accumulation_and_normalization() {
    let source = SparseSource {
        hashes: vec![1, 2],
        occurrences: vec![1, 1],
        entries: vec![
            Entry { row: 0, col: 1, value: 0.5f32.to_bits() },
            Entry { row: 1, col: 0, value: 0.25f32.to_bits() },
            Entry { row: 1, col: 1, value: 0.75f32.to_bits() },
        ],
    };
    let mult = MatrixMultiplicator { dimension: 2, sparse_matrix_id: String::from("m"), source: &source };
    let start = mult.normalize(mult.initialize());
    let by_hand = mult.normalize(mult.next_power(mult.normalize(mult.next_power(start.clone()))));
    assert_eq!(mult.propagate(2, start), by_hand);
}

#[test]
fn one_entry_one_round_in_memory() {
    let source = chain_source();
    let mult = MatrixMultiplicator { dimension: 2, sparse_matrix_id: String::from("m"), source: &source };
    let old = mult.normalize(mult.initialize());
    let raw = mult.next_power(old.clone());
    for i in 0..2 {
        assert_eq!(raw[i][0], old[i][1]);
        assert_eq!(raw[i][1], 0);
        assert_eq!(raw[i][2], 0);
    }
    let out = calculate_embeddings(&source, String::from("m"), 2, 1, &all_names(3));
    assert_eq!(out.len(), 5);
    assert!(matches!(out[0], Emission::Metadata { entity_count: 3, dimension: 2 }));
    assert!(matches!(out[4], Emission::Finish));
    let records = data_records(&out);
    assert_eq!(records.len(), 3);
    for record in &records {
        assert_eq!(record.2.len(), 2);
    }
    assert_eq!(records[0].0, "entity0");
    assert_eq!(records[0].1, 4);
    assert!((norm(&records[0].2) - 1.0).abs() < 1e-5);
    assert_eq!(records[1].2, vec![0, 0]);
    assert_eq!(records[2].2, vec![0, 0]);
    assert_eq!(records[1].1, 5);
    assert_eq!(records[2].1, 6);
}

#[test]
fn zero_rounds_yield_the_normalized_initialization() {
    let source = chain_source();
    let mult = MatrixMultiplicator { dimension: 4, sparse_matrix_id: String::from("m"), source: &source };
    let first = mult.normalize(mult.initialize());
    let out = calculate_embeddings(&source, String::from("m"), 4, 0, &all_names(3));
    let records = data_records(&out);
    assert_eq!(records.len(), 3);
    for j in 0..3 {
        let expected: Vec<u32> = (0..4).map(|i| first[i][j]).collect();
        assert_eq!(records[j].2, expected);
        assert!((norm(&records[j].2) - 1.0).abs() < 1e-5);
    }
}

#[test]
fn every_generation_has_unit_rows() {
    let source = SparseSource {
        hashes: vec![11, 22, 33, 44],
        occurrences: vec![1, 2, 3, 4],
        entries: vec![
            Entry { row: 0, col: 1, value: 0.5f32.to_bits() },
            Entry { row: 0, col: 2, value: 0.5f32.to_bits() },
            Entry { row: 1, col: 0, value: 1.0f32.to_bits() },
            Entry { row: 2, col: 3, value: 0.25f32.to_bits() },
            Entry { row: 2, col: 0, value: 0.75f32.to_bits() },
            Entry { row: 3, col: 3, value: 1.0f32.to_bits() },
        ],
    };
    let mult = MatrixMultiplicator { dimension: 5, sparse_matrix_id: String::from("m"), source: &source };
    let mut res = mult.normalize(mult.initialize());
    for _ in 0..4 {
        for j in 0..4 {
            let row: Vec<u32> = (0..5).map(|i| res[i][j]).collect();
            assert!((norm(&row) - 1.0).abs() < 1e-5);
        }
        res = mult.propagate(1, res);
    }
}

#[test]
fn runs_are_repeatable() {
    let source = chain_source();
    let first = calculate_embeddings(&source, String::from("m"), 3, 2, &all_names(3));
    let second = calculate_embeddings(&source, String::from("m"), 3, 2, &all_names(3));
    assert_eq!(data_records(&first), data_records(&second));
}

#[test]
fn unused_and_unresolved_entities_are_left_out() {
    let source = SparseSource {
        hashes: vec![10, -1, 30, 40],
        occurrences: vec![1, 2, 3, 4],
        entries: vec![Entry { row: 0, col: 2, value: 1.0f32.to_bits() }],
    };
    let names = vec![
        Some(String::from("a")),
        Some(String::from("ghost")),
        None,
        Some(String::from("d")),
    ];
    let out = calculate_embeddings(&source, String::from("m"), 2, 1, &names);
    let records = data_records(&out);
    assert_eq!(records.len(), 2);
    assert_eq!(records[0].0, "a");
    assert_eq!(records[0].1, 1);
    assert_eq!(records[1].0, "d");
    assert_eq!(records[1].1, 4);
    assert_eq!(out.len(), 4);
    assert!(matches!(out[0], Emission::Metadata { entity_count: 4, dimension: 2 }));
    assert!(matches!(out[3], Emission::Finish));
}

#[test]
fn empty_source_emits_metadata_and_finish_only() {
    let source = SparseSource { hashes: vec![], occurrences: vec![], entries: vec![] };
    let out = calculate_embeddings(&source, String::from("m"), 2, 3, &Vec::new());
    assert_eq!(out.len(), 2);
    assert!(matches!(out[0], Emission::Metadata { entity_count: 0, dimension: 2 }));
    assert!(matches!(out[1], Emission::Finish));
}

#[test]
fn embedding_of_reads_across_columns() {
    let source = chain_source();
    let mult = MatrixMultiplicator { dimension: 2, sparse_matrix_id: String::from("m"), source: &source };
    let res = vec![vec![1, 2, 3], vec![4, 5, 6]];
    assert_eq!(mult.embedding_of(&res, 1), vec![2, 5]);
}

#[test]
fn get_and_set_address_one_cell() {
    let source = chain_source();
    let mult = MatrixMultiplicator { dimension: 2, sparse_matrix_id: String::from("m"), source: &source };
    let mut res = vec![vec![1, 2, 3], vec![4, 5, 6]];
    assert_eq!(mult.get(&res, 0, 2), 3);
    assert_eq!(mult.get(&res, 1, 0), 4);
    mult.set(&mut res, 1, 2, 60);
    assert_eq!(res, vec![vec![1, 2, 3], vec![4, 5, 60]]);
    assert_eq!(mult.get(&res, 1, 2), 60);
}

#[test]
fn a_single_cell_normalizes_to_one() {
    let source = SparseSource { hashes: vec![77], occurrences: vec![1], entries: vec![] };
    let mult = MatrixMultiplicator { dimension: 1, sparse_matrix_id: String::from("m"), source: &source };
    let first = mult.normalize(mult.initialize());
    assert!((f32::from_bits(first[0][0]) - 1.0).abs() < 1e-6);
}

#[test]
fn column_task_runs_the_work_it_names() {
    let hashes = vec![10i64, -1, 30];
    let first = ColumnTask::Initialize { hashes: &hashes }.run(2, vec![7; 3]);
    assert_eq!(first, initialize_column(&hashes, 2, vec![0; 3]));
    assert_eq!(first[1], 0);

    let previous = vec![vec![0; 3], first.clone()];
    let entries = vec![Entry { row: 1, col: 2, value: 0.5f32.to_bits() }];
    let next = ColumnTask::Accumulate { previous: &previous, entries: &entries }.run(1, vec![0; 3]);
    assert_eq!(next, accumulate_column(&first, &entries, vec![0; 3]));
    assert_ne!(next[1], 0);

    let sums = vec![4.0f32.to_bits(), 0, 16.0f32.to_bits()];
    let scaled = ColumnTask::Scale { sums: &sums }.run(0, first.clone());
    assert_eq!(scaled, scale_column(first, &sums));
}
