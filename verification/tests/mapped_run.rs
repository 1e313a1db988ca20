use graph_embedding::embedding::calculate_embeddings;
use graph_embedding::mapped::MatrixMultiplicatorMMap;
use graph_embedding::mapped_run::{calculate_embeddings_mmap, MappedRun, Request};
use graph_embedding::output::Emission;
use graph_embedding::rotation::generation_file_name;
use graph_embedding::sparse::{Entry, SparseSource};
use memmap::MmapMut;

fn ring_source() -> SparseSource {
    SparseSource {
        hashes: vec![101, 202, 303, -1, 505],
        occurrences: vec![9, 8, 7, 6, 5],
        entries: vec![
            Entry { row: 0, col: 1, value: 1.0f32.to_bits() },
            Entry { row: 1, col: 2, value: 0.4f32.to_bits() },
            Entry { row: 1, col: 4, value: 0.6f32.to_bits() },
            Entry { row: 2, col: 0, value: 1.0f32.to_bits() },
            Entry { row: 4, col: 0, value: 0.5f32.to_bits() },
            Entry { row: 4, col: 1, value: 0.5f32.to_bits() },
        ],
    }
}

fn names_for(count: usize) -> Vec<Option<String>> {
    (0..count).map(|j| Some(format!("node{}", j))).collect()
}

fn stale(bytes: u64) -> MmapMut {
    let mut map = MmapMut::map_anon(bytes as usize).unwrap();
    for byte in map.iter_mut() {
        *byte = 0x5a;
    }
    map
}

// Drives a run on anonymous maps. Returns the emissions and a log of what
// the run asked for, with the generation file names.
fn drive(source: &SparseSource, dimension: u16, max_iter: u8, names: &Vec<Option<String>>) -> (Vec<Emission>, Vec<String>) {
    let mut run = calculate_embeddings_mmap(source, String::from("g"), dimension, max_iter, names);
    let bytes = run.number_of_bytes();
    let mut out = Vec::new();
    let mut log = Vec::new();
    let mut supplied = None;
    let mut calls = 0;
    loop {
        calls += 1;
        assert!(calls < 10_000);
        match run.advance(supplied.take()) {
            Request::Create { generation, file_name } => {
                assert_eq!(file_name, generation_file_name("g", generation));
                log.push(format!("create {}", file_name));
                supplied = Some(stale(bytes));
            }
            Request::Refused { .. } => panic!("a map of the right size was refused"),
            Request::Proceed => {}
            Request::Flush { generation } => {
                run.map_of(generation).unwrap().flush().unwrap();
                log.push(format!("flush {}", generation_file_name("g", generation)));
            }
            Request::Remove { generation, file_name, map } => {
                assert_eq!(map.len() as u64, bytes);
                assert!(run.map_of(generation).is_none());
                assert_eq!(file_name, generation_file_name("g", generation));
                log.push(format!("remove {}", file_name));
            }
            Request::Emit { emissions } => {
                log.push(String::from("emit"));
                out = emissions;
            }
            Request::Done => break,
        }
    }
    for generation in 0..=max_iter as u16 + 1 {
        assert!(run.map_of(generation).is_none());
    }
    assert!(matches!(run.advance(None), Request::Done));
    (out, log)
}

#[test]
fn a_run_emits_what_the_in_memory_strategy_emits() {
    let source = ring_source();
    let names = names_for(5);
    for max_iter in [0u8, 1, 2, 4] {
        let (on_disk, _) = drive(&source, 3, max_iter, &names);
        let in_memory = calculate_embeddings(&source, String::from("g"), 3, max_iter, &names);
        assert_eq!(on_disk, in_memory);
        assert_eq!(on_disk.len(), 6);
    }
}

#[test]
fn a_run_of_three_rounds_removes_every_generation() {
    let source = ring_source();
    let (_, log) = drive(&source, 2, 3, &names_for(5));
    let wanted: Vec<String> = [
        "create g_matrix_0",
        "flush g_matrix_0",
        "flush g_matrix_0",
        "create g_matrix_1",
        "flush g_matrix_1",
        "flush g_matrix_1",
        "remove g_matrix_0",
        "create g_matrix_2",
        "flush g_matrix_2",
        "flush g_matrix_2",
        "remove g_matrix_1",
        "create g_matrix_3",
        "flush g_matrix_3",
        "flush g_matrix_3",
        "remove g_matrix_2",
        "emit",
        "remove g_matrix_3",
    ]
    .iter()
    .map(|line| line.to_string())
    .collect();
    assert_eq!(log, wanted);
}

#[test]
fn a_run_asks_again_until_the_map_is_handed_in() {
    let source = ring_source();
    let names = names_for(5);
    let mult = MatrixMultiplicatorMMap { dimension: 2, sparse_matrix_id: String::from("g"), source: &source };
    let mut run = MappedRun::new(mult, &names, 1);
    assert!(matches!(run.advance(None), Request::Create { generation: 0, .. }));
    match run.advance(None) {
        Request::Create { generation, file_name } => {
            assert_eq!(generation, 0);
            assert_eq!(file_name, "g_matrix_0");
        }
        _ => panic!("the run did not ask for generation 0 again"),
    }
    assert!(run.map_of(0).is_none());
    assert!(matches!(run.advance(Some(stale(40))), Request::Proceed));
    assert!(run.map_of(0).is_some());
    assert!(run.map_of(1).is_none());
}

#[test]
fn a_map_of_another_length_is_handed_back() {
    let source = ring_source();
    let names = names_for(5);
    let mult = MatrixMultiplicatorMMap { dimension: 2, sparse_matrix_id: String::from("g"), source: &source };
    let mut run = MappedRun::new(mult, &names, 1);
    assert_eq!(run.number_of_bytes(), 40);
    match run.advance(Some(stale(44))) {
        Request::Refused { map } => assert_eq!(map.len(), 44),
        _ => panic!("a map of 44 bytes was not refused"),
    }
    assert!(run.map_of(0).is_none());
    assert!(matches!(run.advance(None), Request::Create { generation: 0, .. }));
}

#[test]
fn a_map_that_was_not_asked_for_is_handed_back() {
    let source = ring_source();
    let names = names_for(5);
    let mult = MatrixMultiplicatorMMap { dimension: 2, sparse_matrix_id: String::from("g"), source: &source };
    let mut run = MappedRun::new(mult, &names, 0);
    assert!(matches!(run.advance(Some(stale(40))), Request::Proceed));
    // the next step initializes generation 0: no map is wanted
    match run.advance(Some(stale(40))) {
        Request::Refused { map } => assert_eq!(map.len(), 40),
        _ => panic!("a map that was not asked for was not refused"),
    }
    assert!(matches!(run.advance(None), Request::Proceed));
    assert!(matches!(run.advance(None), Request::Flush { generation: 0 }));
}

#[test]
fn a_finished_run_refuses_maps_and_stays_finished() {
    let source = ring_source();
    let names = names_for(5);
    let mult = MatrixMultiplicatorMMap { dimension: 1, sparse_matrix_id: String::from("g"), source: &source };
    let mut run = MappedRun::new(mult, &names, 0);
    let mut supplied = None;
    loop {
        match run.advance(supplied.take()) {
            Request::Create { .. } => supplied = Some(stale(20)),
            Request::Done => break,
            _ => {}
        }
    }
    assert!(matches!(run.advance(Some(stale(20))), Request::Refused { .. }));
    assert!(matches!(run.advance(None), Request::Done));
}

#[test]
fn a_run_without_named_entities_emits_the_frame_only() {
    let source = ring_source();
    let names: Vec<Option<String>> = vec![None; 5];
    let (out, _) = drive(&source, 2, 2, &names);
    assert_eq!(out, vec![Emission::Metadata { entity_count: 5, dimension: 2 }, Emission::Finish]);
}
