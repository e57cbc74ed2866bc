use logpose::index::builder::{build_hnsw_from_hashes, build_hnsw_index, deterministic_level};
use logpose::index::bytes::{
    read_bytes, read_optional_u32, read_string, read_u16, read_u32, read_u64, read_u8, read_words,
};
use logpose::index::codec::{read_hnsw_index, write_hnsw_index};
use logpose::index::construction::HnswIndexEntrySource;
use logpose::index::error::IndexErrorKind;
use logpose::index::flat::{build_flat_index, FlatIndexEntrySource};
use logpose::index::graph::{
    HnswBuildParams, HnswIndexSidecar, HnswNode, HnswStoredRecord, IndexKind,
};
use logpose::index::layer::{greedy_descent, search_layer};
use logpose::index::score::{is_better, metric_compare};
use logpose::index::search::{is_searchable, search_hnsw, HnswSearchResult};
use logpose::index::validity::validate_hnsw_index;
use logpose::json::JsonNumber;
use logpose::scalar::{ScalarField, ScalarMetadataValue};
use logpose::text::Comparison;
use logpose::types::DistanceMetric;
use std::hash::{DefaultHasher, Hash, Hasher};

fn bits(vector: &[f32]) -> Vec<u32> {
    vector.iter().map(|value| value.to_bits()).collect()
}

fn norm(vector: &[f32]) -> f32 {
    vector.iter().map(|value| value * value).sum::<f32>().sqrt()
}

fn metric_value(metric: DistanceMetric, query: &[f32], candidate: &[f32]) -> u32 {
    if query.len() != candidate.len() {
        return 0;
    }
    let dot: f32 = query.iter().zip(candidate).map(|(a, b)| a * b).sum();
    let value = match metric {
        DistanceMetric::Dot => dot,
        DistanceMetric::Cosine => {
            let product = norm(query) * norm(candidate);
            if product == 0.0 {
                0.0
            } else {
                dot / product
            }
        }
        DistanceMetric::L2 => query
            .iter()
            .zip(candidate)
            .map(|(a, b)| (a - b) * (a - b))
            .sum::<f32>()
            .sqrt(),
    };
    value.to_bits()
}

fn pair_values(metric: DistanceMetric, vectors: &[Vec<f32>]) -> Vec<Vec<u32>> {
    vectors
        .iter()
        .map(|left| {
            vectors
                .iter()
                .map(|right| metric_value(metric, left, right))
                .collect()
        })
        .collect()
}

fn entry(index: usize, id: &str, vector: &[f32], metadata: &str) -> HnswIndexEntrySource {
    HnswIndexEntrySource {
        entry_offset_index: index,
        record_id: id.to_owned(),
        seq_no: index as u64 + 1,
        vector: bits(vector),
        metadata: metadata.to_owned(),
    }
}

fn build(
    segment_id: &str,
    metric: DistanceMetric,
    params: HnswBuildParams,
    rows: &[(&str, Vec<f32>, &str)],
) -> HnswIndexSidecar {
    let entries: Vec<HnswIndexEntrySource> = rows
        .iter()
        .enumerate()
        .map(|(index, (id, vector, metadata))| entry(index, id, vector, metadata))
        .collect();
    let vectors: Vec<Vec<f32>> = rows.iter().map(|row| row.1.clone()).collect();
    build_hnsw_index(
        segment_id,
        metric,
        params,
        &entries,
        &pair_values(metric, &vectors),
    )
    .expect("index should build")
}

fn search(
    index: &HnswIndexSidecar,
    query: &[f32],
    top_k: usize,
    filter: Option<&[bool]>,
) -> HnswSearchResult {
    let values: Vec<u32> = index
        .nodes
        .iter()
        .map(|node| {
            let vector: Vec<f32> = node
                .record
                .vector
                .iter()
                .map(|word| f32::from_bits(*word))
                .collect();
            metric_value(index.metric, query, &vector)
        })
        .collect();
    search_hnsw(index, &bits(query), &values, top_k, filter).expect("search should succeed")
}

fn ids(result: &HnswSearchResult) -> Vec<&str> {
    result
        .candidates
        .iter()
        .map(|candidate| candidate.record_id.as_str())
        .collect()
}

fn verdicts(index: &HnswIndexSidecar) -> Vec<bool> {
    index
        .nodes
        .iter()
        .map(|node| node.record.metadata.contains("keep"))
        .collect()
}

fn field<'a>(fields: &'a [ScalarField], name: &str) -> &'a ScalarField {
    fields
        .iter()
        .find(|field| field.name == name)
        .expect("field should be summarized")
}

#[test]
fn build_flat_index_tracks_norms_offsets_and_scalar_stats() {
    let sidecar = build_flat_index(
        "segment-1",
        &[
            FlatIndexEntrySource {
                is_put: true,
                record_id_offset: 0,
                vector_offset: 0,
                metadata_offset: 0,
                vector: Some(bits(&[3.0, 4.0])),
                metadata: Some(
                    r#"{"topic":"intro","rank":2,"active":true,"details":{"chapter":1}}"#
                        .to_owned(),
                ),
            },
            FlatIndexEntrySource {
                is_put: false,
                record_id_offset: 4,
                vector_offset: 0,
                metadata_offset: 0,
                vector: None,
                metadata: None,
            },
        ],
        &[norm(&[3.0, 4.0]).to_bits(), 0],
    )
    .expect("fields should be countable");

    assert_eq!(sidecar.index_kind, IndexKind::Flat);
    assert_eq!(sidecar.put_count, 1);
    assert_eq!(sidecar.delete_count, 1);
    assert_eq!(sidecar.vector_norms, vec![Some(5.0f32.to_bits()), None]);
    assert_eq!(sidecar.entry_offsets[0].record_id_offset, 0);
    assert_eq!(field(&sidecar.scalar_fields, "topic").stats.present_count, 1);
    assert_eq!(field(&sidecar.scalar_fields, "rank").stats.distinct_count, 1);
    assert_eq!(
        field(&sidecar.scalar_fields, "details").stats.present_count,
        1
    );
    assert!(field(&sidecar.scalar_fields, "details")
        .stats
        .value_counts
        .is_empty());
}

#[test]
fn flat_index_summarizes_values_across_entries() {
    let document = |text: &str| FlatIndexEntrySource {
        is_put: true,
        record_id_offset: 1,
        vector_offset: 2,
        metadata_offset: 3,
        vector: None,
        metadata: Some(text.to_owned()),
    };
    let sidecar = build_flat_index(
        "segment-1",
        &[
            document(r#"{"rank":3,"name":null}"#),
            document(r#"{"rank":1,"name":"b"}"#),
            document(r#"{"rank":3,"name":"a"}"#),
            document(r#"[1,2,3]"#),
            document(r#"{broken"#),
        ],
        &[0, 0, 0, 0, 0],
    )
    .expect("fields should be countable");

    assert_eq!(sidecar.put_count, 5);
    assert_eq!(sidecar.vector_norms, vec![None; 5]);
    let names: Vec<&str> = sidecar
        .scalar_fields
        .iter()
        .map(|field| field.name.as_str())
        .collect();
    assert_eq!(names, vec!["name", "rank"]);
    let rank = &field(&sidecar.scalar_fields, "rank").stats;
    assert_eq!(rank.present_count, 3);
    assert_eq!(rank.null_count, 0);
    assert_eq!(rank.distinct_count, 2);
    let counts: Vec<(&str, usize)> = rank
        .value_counts
        .iter()
        .map(|entry| (entry.value.as_str(), entry.count))
        .collect();
    assert_eq!(counts, vec![("1", 1), ("3", 2)]);
    assert_eq!(
        rank.min,
        Some(ScalarMetadataValue::Number(JsonNumber {
            signed: Some(1),
            unsigned: Some(1),
            double_bits: Some(1.0f64.to_bits()),
        }))
    );
    let name = &field(&sidecar.scalar_fields, "name").stats;
    assert_eq!(name.null_count, 1);
    assert_eq!(name.min, Some(ScalarMetadataValue::String("a".to_owned())));
    assert_eq!(name.max, Some(ScalarMetadataValue::String("b".to_owned())));
    assert_eq!(name.distinct_count, 3);
}

#[test]
fn hnsw_round_trip_preserves_top_candidates() {
    let index = build(
        "segment-2",
        DistanceMetric::Dot,
        HnswBuildParams::default(),
        &[
            ("alpha", vec![1.0, 0.0], r#"{"kind":"keep"}"#),
            ("beta", vec![0.1, 1.0], r#"{"kind":"drop"}"#),
            ("gamma", vec![0.9, 0.1], r#"{"kind":"keep"}"#),
        ],
    );

    let bytes = write_hnsw_index(&index).expect("index should write");
    let restored = read_hnsw_index("hnsw-round-trip.bin", &bytes).expect("index should read");

    let original = search(&index, &[1.0, 0.0], 2, None);
    let round_trip = search(&restored, &[1.0, 0.0], 2, None);

    assert_eq!(ids(&original), vec!["alpha", "gamma"]);
    assert_eq!(ids(&original), ids(&round_trip));
    assert_eq!(
        write_hnsw_index(&restored).expect("index should write"),
        bytes
    );
}

#[test]
fn hnsw_filter_hook_excludes_non_matching_candidates() {
    let index = build(
        "segment-3",
        DistanceMetric::Dot,
        HnswBuildParams::default(),
        &[
            ("alpha", vec![1.0, 0.0], r#"{"kind":"keep"}"#),
            ("beta", vec![0.95, 0.0], r#"{"kind":"drop"}"#),
            ("gamma", vec![0.75, 0.0], r#"{"kind":"keep"}"#),
        ],
    );

    let result = search(&index, &[1.0, 0.0], 2, Some(&verdicts(&index)));

    assert_eq!(ids(&result), vec!["alpha", "gamma"]);
    assert!(result.stats.filtered_out_count >= 1);
}

#[test]
fn hnsw_filter_hook_expands_search_until_top_k_is_satisfied() {
    let index = build(
        "segment-4",
        DistanceMetric::Dot,
        HnswBuildParams {
            ef_search: 2,
            ..HnswBuildParams::default()
        },
        &[
            ("drop-a", vec![1.0, 0.0], r#"{"kind":"drop"}"#),
            ("drop-b", vec![0.99, 0.0], r#"{"kind":"drop"}"#),
            ("keep-a", vec![0.98, 0.0], r#"{"kind":"keep"}"#),
            ("keep-b", vec![0.97, 0.0], r#"{"kind":"keep"}"#),
            ("drop-c", vec![0.96, 0.0], r#"{"kind":"drop"}"#),
        ],
    );

    let result = search(&index, &[1.0, 0.0], 2, Some(&verdicts(&index)));

    assert_eq!(ids(&result), vec!["keep-a", "keep-b"]);
    assert!(result.stats.filtered_out_count >= 2);
}

#[test]
fn read_hnsw_index_rejects_truncated_payload() {
    let error =
        read_hnsw_index("hnsw-truncated.bin", b"LPH1").expect_err("truncated payload should fail");
    assert_eq!(error.kind, IndexErrorKind::UnexpectedEof);
}

#[test]
fn read_hnsw_index_rejects_every_truncation() {
    let index = build(
        "segment-cut",
        DistanceMetric::L2,
        HnswBuildParams::default(),
        &[
            ("alpha", vec![1.0, 0.0], r#"{"kind":"keep"}"#),
            ("beta", vec![0.5, 2.0], "null"),
        ],
    );
    let bytes = write_hnsw_index(&index).expect("index should write");
    for kept in 0..bytes.len() {
        let error = read_hnsw_index("cut", &bytes[..kept]).expect_err("cut payload should fail");
        assert_eq!(error.kind, IndexErrorKind::UnexpectedEof);
        assert_eq!(error.to_text(), "truncated hnsw payload");
    }
    let mut spaced = build(
        "segment-cut",
        DistanceMetric::L2,
        HnswBuildParams::default(),
        &[("alpha", vec![1.0], "[1,2]")],
    );
    spaced.nodes[0].record.metadata = " [ 1 , 2 ] ".to_owned();
    let written = write_hnsw_index(&spaced).expect("index should write");
    for kept in 0..written.len() {
        let error = read_hnsw_index("cut", &written[..kept]).expect_err("cut payload should fail");
        assert_eq!(error.to_text(), "truncated hnsw payload");
    }
    let mut longer = bytes.clone();
    longer.push(7);
    let restored = read_hnsw_index("longer", &longer).expect("what follows is ignored");
    assert_eq!(
        write_hnsw_index(&restored).expect("index should write"),
        bytes
    );
}

#[test]
fn read_hnsw_index_rejects_out_of_range_entry_points() {
    let mut index = build(
        "segment-invalid-entry",
        DistanceMetric::Dot,
        HnswBuildParams::default(),
        &[("alpha", vec![1.0, 0.0], r#"{"kind":"keep"}"#)],
    );
    index.entry_point = Some(9);

    let bytes = write_hnsw_index(&index).expect("index should write");
    let error = read_hnsw_index("hnsw-invalid-entry-point.bin", &bytes)
        .expect_err("invalid entry point should fail");
    assert_eq!(error.kind, IndexErrorKind::InvalidData);
    assert_eq!(error.message, "entry point 9 is out of range for 1 nodes");
}

#[test]
fn read_hnsw_index_rejects_missing_entry_point_for_non_empty_graph() {
    let mut index = build(
        "segment-missing-entry",
        DistanceMetric::Dot,
        HnswBuildParams::default(),
        &[("alpha", vec![1.0, 0.0], r#"{"kind":"keep"}"#)],
    );
    index.entry_point = None;

    let bytes = write_hnsw_index(&index).expect("index should write");
    let error = read_hnsw_index("hnsw-missing-entry-point.bin", &bytes)
        .expect_err("missing entry point should fail");
    assert_eq!(error.kind, IndexErrorKind::InvalidData);
}

#[test]
fn read_hnsw_index_rejects_out_of_range_neighbor_references() {
    let mut index = build(
        "segment-invalid-neighbor",
        DistanceMetric::Dot,
        HnswBuildParams::default(),
        &[
            ("alpha", vec![1.0, 0.0], r#"{"kind":"keep"}"#),
            ("beta", vec![0.9, 0.0], r#"{"kind":"keep"}"#),
        ],
    );
    index.nodes[0].neighbors_by_level[0].push(99);

    let bytes = write_hnsw_index(&index).expect("index should write");
    let error = read_hnsw_index("hnsw-invalid-neighbor.bin", &bytes)
        .expect_err("invalid neighbor should fail");
    assert_eq!(error.kind, IndexErrorKind::InvalidData);
    assert_eq!(
        error.message,
        "node 0 layer 0 references out-of-range neighbor 99"
    );
}

#[test]
fn read_hnsw_index_rejects_other_malformed_data() {
    let index = build(
        "s",
        DistanceMetric::Dot,
        HnswBuildParams::default(),
        &[("alpha", vec![1.0, 0.0], "{}")],
    );
    let bytes = write_hnsw_index(&index).expect("index should write");
    let message = |at: usize, value: u8| {
        let mut changed = bytes.clone();
        changed[at] = value;
        read_hnsw_index("side.bin", &changed)
            .expect_err("malformed data should fail")
            .message
    };

    assert_eq!(message(0, b'X'), "invalid hnsw magic in 'side.bin'");
    assert!(message(10, 0xff).contains("utf-8"));
    assert_eq!(message(11, 9), "unknown index kind tag 9");
    assert_eq!(message(12, 0), "unknown metric tag 0");
    assert_eq!(message(30, 7), "invalid optional u32 tag 7");
    assert_eq!(
        message(13, 3),
        "stored vector 'alpha' expected 3 dimensions but found 2"
    );

    let mut bad_level = build(
        "s",
        DistanceMetric::Dot,
        HnswBuildParams::default(),
        &[("alpha", vec![1.0, 0.0], "{}")],
    );
    let level = bad_level.max_level;
    bad_level.nodes[0].level = level + 1;
    assert_eq!(
        validate_hnsw_index(&bad_level)
            .expect_err("levels should match")
            .message,
        format!(
            "entry point level {} does not match max level {}",
            level + 1,
            level
        )
    );
    bad_level.max_level = level + 1;
    assert_eq!(
        validate_hnsw_index(&bad_level)
            .expect_err("a list is missing")
            .message,
        format!(
            "node 0 level {} expected {} neighbor lists but found {}",
            level + 1,
            level + 2,
            level + 1
        )
    );

    let mut bad_json = build(
        "s",
        DistanceMetric::Dot,
        HnswBuildParams::default(),
        &[("alpha", vec![1.0, 0.0], "{}")],
    );
    bad_json.nodes[0].record.metadata = "{".to_owned();
    let bytes = write_hnsw_index(&bad_json).expect("index should write");
    let error = read_hnsw_index("json", &bytes).expect_err("metadata should be json");
    assert_eq!(error.kind, IndexErrorKind::InvalidData);
    assert!(error.message.contains("line 1"));
}

#[test]
fn sidecar_bytes_follow_the_format() {
    let index = build(
        "s",
        DistanceMetric::Cosine,
        HnswBuildParams {
            max_neighbors: 1,
            ef_construction: 2,
            ef_search: 3,
        },
        &[],
    );
    let bytes = write_hnsw_index(&index).expect("index should write");
    let mut expected: Vec<u8> = b"LPH1".to_vec();
    expected.extend([1, 0]);
    expected.extend([1, 0, 0, 0, b's']);
    expected.extend([1, 1]);
    expected.extend([0, 0, 0, 0]);
    expected.extend([1, 0, 0, 0, 2, 0, 0, 0, 3, 0, 0, 0]);
    expected.extend([0, 0]);
    expected.extend([0, 0, 0, 0]);
    assert_eq!(bytes, expected);
}

#[test]
fn write_hnsw_index_rejects_numbers_that_do_not_fit() {
    let mut index = build("s", DistanceMetric::Dot, HnswBuildParams::default(), &[]);
    index.dimensions = 0x1_0000_0000;
    let error = write_hnsw_index(&index).expect_err("dimensions should not fit");
    assert_eq!(error.kind, IndexErrorKind::InvalidInput);
    assert_eq!(error.message, "value does not fit in u32");
}

#[test]
fn build_rejects_mixed_dimensions() {
    let entries = vec![
        entry(0, "alpha", &[1.0, 0.0], "{}"),
        entry(1, "beta", &[1.0], "{}"),
    ];
    let error = build_hnsw_index(
        "s",
        DistanceMetric::Dot,
        HnswBuildParams::default(),
        &entries,
        &Vec::new(),
    )
    .expect_err("mixed dimensions should fail");
    assert_eq!(error.kind, IndexErrorKind::InvalidData);
    assert_eq!(
        error.message,
        "hnsw entry 'beta' expected 2 dimensions but found 1"
    );
}

#[test]
fn search_rejects_queries_of_other_lengths() {
    let index = build(
        "s",
        DistanceMetric::Dot,
        HnswBuildParams::default(),
        &[("alpha", vec![1.0, 0.0], "{}")],
    );
    let error = search_hnsw(&index, &[0], &[0], 1, None).expect_err("query should not fit");
    assert_eq!(error.kind, IndexErrorKind::InvalidInput);
    assert_eq!(error.message, "query expected 2 dimensions but found 1");

    let mut loose = index;
    loose.dimensions = 1;
    let error = search_hnsw(&loose, &[0], &[0], 1, None).expect_err("vector should not fit");
    assert_eq!(error.message, "vector expected 1 dimensions but found 2");

    let nothing = search_hnsw(&loose, &[], &[0], 0, None).expect("nothing is asked for");
    assert!(nothing.candidates.is_empty());
    assert_eq!(nothing.stats.visited_nodes, 0);
}

#[test]
fn deterministic_level_counts_even_halves() {
    assert_eq!(deterministic_level(1), 0);
    assert_eq!(deterministic_level(2), 1);
    assert_eq!(deterministic_level(12), 2);
    assert_eq!(deterministic_level(8), 3);
    assert_eq!(deterministic_level(64), 4);
    assert_eq!(deterministic_level(0), 4);
}

#[test]
fn built_graphs_are_sound_and_tidy() {
    let vectors: Vec<Vec<f32>> = (0..24)
        .map(|i| vec![(i as f32 * 0.7).sin(), (i as f32 * 0.3).cos()])
        .collect();
    let entries: Vec<HnswIndexEntrySource> = vectors
        .iter()
        .enumerate()
        .map(|(index, vector)| entry(index, &format!("r{index}"), vector, "{}"))
        .collect();
    let hashes: Vec<u64> = (0..24).map(|i| i * 3 + 2).collect();
    let params = HnswBuildParams {
        max_neighbors: 3,
        ef_construction: 6,
        ef_search: 4,
    };
    let index = build_hnsw_from_hashes(
        "s",
        DistanceMetric::L2,
        params,
        &entries,
        &hashes,
        &pair_values(DistanceMetric::L2, &vectors),
    )
    .expect("index should build");

    assert!(validate_hnsw_index(&index).is_ok());
    for (at, node) in index.nodes.iter().enumerate() {
        assert_eq!(node.level, deterministic_level(hashes[at]));
        assert_eq!(node.record.record_id, format!("r{at}"));
        for list in &node.neighbors_by_level {
            assert!(list.len() <= 3);
            let mut sorted = list.clone();
            sorted.sort_unstable();
            sorted.dedup();
            assert_eq!(sorted.len(), list.len());
            assert!(!list.contains(&(at as u32)));
        }
    }

    let result = search(&index, &[0.2, 0.4], 5, None);
    assert_eq!(result.candidates.len(), 5);
    for pair in result.candidates.windows(2) {
        assert!(!is_better(DistanceMetric::L2, pair[1].value, pair[0].value));
    }
}

#[test]
fn metric_values_compare_as_floats() {
    let order = |metric, left: f32, right: f32| {
        metric_compare(metric, left.to_bits(), right.to_bits())
    };
    assert_eq!(order(DistanceMetric::Dot, 1.0, 0.5), Comparison::Greater);
    assert_eq!(order(DistanceMetric::Dot, -1.0, -0.5), Comparison::Less);
    assert_eq!(order(DistanceMetric::Cosine, 0.0, -0.0), Comparison::Equal);
    assert_eq!(order(DistanceMetric::L2, 1.0, 0.5), Comparison::Less);
    assert_eq!(
        order(DistanceMetric::L2, f32::NAN, 0.5),
        Comparison::Equal
    );
    assert_eq!(
        order(DistanceMetric::Dot, f32::INFINITY, f32::MAX),
        Comparison::Greater
    );
}

fn chain(neighbors: &[&[u32]], ef_search: usize) -> HnswIndexSidecar {
    let nodes = neighbors
        .iter()
        .enumerate()
        .map(|(index, list)| HnswNode {
            record: HnswStoredRecord {
                entry_offset_index: index,
                record_id: format!("record-{index}"),
                seq_no: index as u64 + 1,
                vector: bits(&[index as f32]),
                metadata: "{}".to_owned(),
            },
            level: 0,
            neighbors_by_level: vec![list.to_vec()],
        })
        .collect();
    HnswIndexSidecar {
        version: 1,
        segment_id: "segment-chain".to_owned(),
        index_kind: IndexKind::Hnsw,
        metric: DistanceMetric::L2,
        dimensions: 1,
        params: HnswBuildParams {
            max_neighbors: 2,
            ef_construction: 2,
            ef_search,
        },
        entry_point: Some(0),
        max_level: 0,
        nodes,
    }
}

#[test]
fn small_graphs_are_searched_exactly() {
    let index = chain(&[&[1], &[2], &[3], &[]], 4);
    let found = search(&index, &[2.9], 2, None);
    assert_eq!(ids(&found), vec!["record-3", "record-2"]);
    assert_eq!(found.stats.visited_nodes, 4);
    assert_eq!(found.stats.candidate_count, 4);
}

#[test]
fn short_results_hold_every_reachable_record() {
    let index = chain(&[&[1], &[2], &[], &[0]], 1);
    let found = search(&index, &[0.0], 10, Some(&[true, false, true, true]));
    assert_eq!(ids(&found), vec!["record-0", "record-2"]);
    assert_eq!(found.stats.visited_nodes, 3);
    assert_eq!(found.stats.filtered_out_count, 1);
}

#[test]
fn layer_searches_leave_out_the_excluded_node_and_what_only_it_links() {
    let index = chain(&[&[1, 3], &[2], &[], &[]], 4);
    let values = bits(&[4.0, 3.0, 2.0, 1.0]);
    let (scored, visited) =
        search_layer(&index.nodes, DistanceMetric::L2, 1, &values, 0, &[0], 10, Some(1))
            .expect("search should succeed");
    let found: Vec<usize> = scored.iter().map(|node| node.index).collect();
    assert_eq!(found, vec![3, 0]);
    assert_eq!(visited, 2);

    let (scored, visited) = search_layer(
        &index.nodes,
        DistanceMetric::L2,
        1,
        &values,
        0,
        &[2, 9, 1, 2, 3],
        10,
        Some(1),
    )
    .expect("search should succeed");
    let found: Vec<usize> = scored.iter().map(|node| node.index).collect();
    assert_eq!(found, vec![3, 2]);
    assert_eq!(visited, 2);
}

#[test]
fn descents_end_at_a_peak() {
    let index = chain(&[&[1], &[0, 2], &[1, 3], &[2]], 4);
    let values = bits(&[3.0, 2.0, 1.0, 2.0]);
    assert_eq!(
        greedy_descent(&index.nodes, DistanceMetric::L2, 1, &values, 0, 0),
        Ok(2)
    );
    assert_eq!(
        greedy_descent(&index.nodes, DistanceMetric::L2, 1, &values, 0, 3),
        Ok(2)
    );
    assert_eq!(
        greedy_descent(&index.nodes, DistanceMetric::L2, 2, &values, 0, 3),
        Err(1)
    );
}

#[test]
fn graphs_with_missing_nodes_cannot_be_searched() {
    assert!(is_searchable(&chain(&[&[1], &[0]], 2)));
    assert!(is_searchable(&chain(&[], 2)));
    assert!(!is_searchable(&chain(&[&[1], &[2]], 2)));

    let mut index = chain(&[&[1], &[0]], 2);
    index.entry_point = Some(2);
    assert!(is_searchable(&index));
    assert_eq!(ids(&search(&index, &[0.0], 1, None)), Vec::<&str>::new());
    index.max_level = 1;
    assert!(!is_searchable(&index));
}

#[test]
fn what_is_read_can_be_written_again() {
    let index = build(
        "segment-again",
        DistanceMetric::Dot,
        HnswBuildParams::default(),
        &[
            ("alpha", vec![1.0, 0.0], "{\"kind\":\"keep\"}"),
            ("beta", vec![0.0, 1.0], "{\"kind\":\"drop\"}"),
        ],
    );
    let mut bytes = write_hnsw_index(&index).expect("index should be written");
    let written = bytes.clone();
    bytes.extend_from_slice(b"trailing");
    let read = read_hnsw_index("again.hnsw", &bytes).expect("index should be read");
    assert_eq!(
        write_hnsw_index(&read).expect("index should be written"),
        written
    );
}

#[test]
fn levels_come_from_identifiers_and_sequence_numbers() {
    let entries: Vec<HnswIndexEntrySource> = (0..48)
        .map(|index| HnswIndexEntrySource {
            entry_offset_index: index,
            record_id: format!("record-{}", index % 24),
            seq_no: 7 + (index / 24) as u64,
            vector: bits(&[index as f32]),
            metadata: "{}".to_owned(),
        })
        .collect();
    let vectors: Vec<Vec<f32>> = (0..48).map(|index| vec![index as f32]).collect();
    let index = build_hnsw_index(
        "segment-levels",
        DistanceMetric::L2,
        HnswBuildParams::default(),
        &entries,
        &pair_values(DistanceMetric::L2, &vectors),
    )
    .expect("index should build");
    let levels: Vec<u8> = index.nodes.iter().map(|node| node.level).collect();
    let expected: Vec<u8> = entries
        .iter()
        .map(|entry| {
            let mut hasher = DefaultHasher::new();
            entry.record_id.hash(&mut hasher);
            entry.seq_no.hash(&mut hasher);
            deterministic_level(hasher.finish())
        })
        .collect();
    assert_eq!(levels, expected);
    assert!(levels[..24].iter().any(|level| *level != levels[0]));
    assert_ne!(levels[..24], levels[24..]);
}

#[test]
fn read_hnsw_index_rejects_vectors_without_dimensions() {
    let mut index = chain(&[&[]], 2);
    index.dimensions = 0;
    let bytes = write_hnsw_index(&index).expect("index should write");
    let error = read_hnsw_index("flat", &bytes).expect_err("dimensions should match");
    assert_eq!(error.kind, IndexErrorKind::InvalidData);
    assert_eq!(
        error.message,
        "stored vector 'record-0' expected 0 dimensions but found 1"
    );

    index.nodes[0].record.vector = Vec::new();
    let bytes = write_hnsw_index(&index).expect("index should write");
    let read = read_hnsw_index("flat", &bytes).expect("an empty vector has no dimensions");
    assert_eq!(read.nodes[0].record.vector, Vec::<u32>::new());
}

#[test]
fn read_hnsw_index_rejects_nodes_above_the_highest_level() {
    let mut index = chain(&[&[1], &[0]], 2);
    index.nodes[1].level = 1;
    index.nodes[1].neighbors_by_level.push(Vec::new());
    assert!(validate_hnsw_index(&index).is_ok());
    let bytes = write_hnsw_index(&index).expect("index should write");
    let error = read_hnsw_index("tall", &bytes).expect_err("a node is too high");
    assert_eq!(error.kind, IndexErrorKind::InvalidData);
    assert_eq!(error.message, "node 1 level 1 exceeds max level 0");

    index.entry_point = Some(1);
    index.max_level = 1;
    let bytes = write_hnsw_index(&index).expect("index should write");
    assert!(read_hnsw_index("tall", &bytes).is_ok());
}

#[test]
fn stored_metadata_is_in_one_notation() {
    let mut index = chain(&[&[]], 2);
    index.nodes[0].record.metadata = r#"{ "b" : 1 , "a" : 2.50 }"#.to_owned();
    let bytes = write_hnsw_index(&index).expect("index should write");
    let read = read_hnsw_index("notation", &bytes).expect("index should read");
    assert_eq!(read.nodes[0].record.metadata, r#"{"a":2.5,"b":1}"#);

    index.nodes[0].record.metadata = "[1,2]".to_owned();
    let mut bytes = write_hnsw_index(&index).expect("index should write");
    let at = bytes
        .windows(5)
        .position(|window| window == b"[1,2]")
        .expect("metadata should be written");
    bytes[at..at + 5].copy_from_slice(b"[ 7 ]");
    let read = read_hnsw_index("notation", &bytes).expect("index should read");
    assert_eq!(read.nodes[0].record.metadata, "[7]");
    assert_ne!(write_hnsw_index(&read).expect("index should write"), bytes);
}

#[test]
fn the_highest_level_is_that_of_the_entry_point() {
    let vectors: Vec<Vec<f32>> = (0..6).map(|index| vec![index as f32]).collect();
    let entries: Vec<HnswIndexEntrySource> = vectors
        .iter()
        .enumerate()
        .map(|(index, vector)| entry(index, &format!("r{index}"), vector, "{}"))
        .collect();
    let index = build_hnsw_from_hashes(
        "s",
        DistanceMetric::L2,
        HnswBuildParams::default(),
        &entries,
        &vec![1, 2, 4, 12, 6, 3],
        &pair_values(DistanceMetric::L2, &vectors),
    )
    .expect("index should build");
    let levels: Vec<u8> = index.nodes.iter().map(|node| node.level).collect();
    assert_eq!(levels, vec![0, 1, 2, 2, 1, 0]);
    assert_eq!(index.max_level, 2);
    assert_eq!(index.entry_point, Some(2));
}

#[test]
fn small_built_indexes_are_searched_exactly() {
    let rows: Vec<(&str, Vec<f32>, &str)> = vec![
        ("a", vec![5.0, 1.0], r#"{"kind":"keep"}"#),
        ("b", vec![1.0, 0.5], r#"{"kind":"keep"}"#),
        ("c", vec![0.0, 0.0], r#"{"kind":"drop"}"#),
        ("d", vec![4.0, 4.0], r#"{"kind":"keep"}"#),
        ("e", vec![2.0, 0.0], r#"{"kind":"drop"}"#),
        ("f", vec![9.0, 9.0], r#"{"kind":"keep"}"#),
    ];
    let index = build(
        "segment-small",
        DistanceMetric::L2,
        HnswBuildParams {
            max_neighbors: 5,
            ef_construction: 5,
            ef_search: 2,
        },
        &rows,
    );
    for node in &index.nodes {
        assert_eq!(node.neighbors_by_level[0].len(), 5);
    }
    let query = [0.0, 0.0];
    assert_eq!(ids(&search(&index, &query, 1, None)), vec!["c"]);
    assert_eq!(ids(&search(&index, &query, 3, None)), vec!["c", "b", "e"]);
    let kept = verdicts(&index);
    assert_eq!(
        ids(&search(&index, &query, 2, Some(&kept))),
        vec!["b", "a"]
    );
    assert_eq!(
        ids(&search(&index, &query, 9, Some(&kept))),
        vec!["b", "a", "d", "f"]
    );
}

#[test]
fn searches_that_stay_out_of_the_graph_need_no_values() {
    let mut index = chain(&[&[1], &[7]], 2);
    assert!(!is_searchable(&index));
    let found = search_hnsw(&index, &bits(&[0.0]), &[], 0, None).expect("nothing is asked for");
    assert!(found.candidates.is_empty());
    let error = search_hnsw(&index, &bits(&[0.0, 1.0]), &[], 1, None)
        .expect_err("the query is too long");
    assert_eq!(error.kind, IndexErrorKind::InvalidInput);
    index.nodes.clear();
    let found = search_hnsw(&index, &[], &[], 3, None).expect("there is nothing to find");
    assert!(found.candidates.is_empty());
}

#[test]
fn failed_reads_stop_where_the_data_does() {
    let data = [2u8, 0, 0, 0, 9, 9, 9, 9, 7, 7];
    let mut cursor: usize = 8;
    assert!(read_bytes(&data, &mut cursor, 3).is_err());
    assert!(read_u32(&data, &mut cursor).is_err());
    assert!(read_u64(&data, &mut cursor).is_err());
    assert_eq!(cursor, 8);
    assert_eq!(read_u16(&data, &mut cursor).expect("two bytes are left"), 0x0707);
    assert!(read_u8(&data, &mut cursor).is_err());
    assert_eq!(cursor, 10);

    let mut cursor: usize = 0;
    assert!(read_words(&data, &mut cursor).is_err());
    assert_eq!(cursor, 8);

    let mut cursor: usize = 0;
    assert!(read_optional_u32(&data, &mut cursor).is_err());
    assert_eq!(cursor, 1);
    let mut cursor: usize = 0;
    assert!(read_optional_u32(&[1, 0, 0], &mut cursor).is_err());
    assert_eq!(cursor, 1);

    let mut cursor: usize = 0;
    assert!(read_string(&[2, 0, 0, 0, 0xff, 0xff], &mut cursor).is_err());
    assert_eq!(cursor, 6);
    let mut cursor: usize = 0;
    assert!(read_string(&[3, 0, 0, 0, 0x61], &mut cursor).is_err());
    assert_eq!(cursor, 4);
    let mut cursor: usize = 0;
    assert!(read_string(&[3, 0], &mut cursor).is_err());
    assert_eq!(cursor, 0);
}

#[test]
fn summaries_describe_their_documents() {
    let document = |text: &str| FlatIndexEntrySource {
        is_put: true,
        record_id_offset: 1,
        vector_offset: 2,
        metadata_offset: 3,
        vector: None,
        metadata: Some(text.to_owned()),
    };
    let sidecar = build_flat_index(
        "segment-1",
        &[
            document(r#"{"tag":"b","mark":null,"list":[1]}"#),
            document(r#"{"tag":-7}"#),
            document(r#"{"tag":true,"mark":null}"#),
            document(r#"{"tag":"b"}"#),
            document(r#"{"tag":{}}"#),
            document("7"),
        ],
        &[0, 0, 0, 0, 0, 0],
    )
    .expect("fields should be countable");
    let tag = &field(&sidecar.scalar_fields, "tag").stats;
    assert_eq!(tag.present_count, 5);
    assert_eq!(tag.null_count, 0);
    assert_eq!(tag.distinct_count, 3);
    let total: usize = tag.value_counts.iter().map(|entry| entry.count).sum();
    assert_eq!(total, 4);
    assert_eq!(tag.min, Some(ScalarMetadataValue::Bool(true)));
    assert_eq!(tag.max, Some(ScalarMetadataValue::String("b".to_owned())));
    let mark = &field(&sidecar.scalar_fields, "mark").stats;
    assert_eq!(mark.present_count, 2);
    assert_eq!(mark.null_count, 2);
    assert_eq!(mark.value_counts[0].count, 2);
    assert_eq!(mark.min, None);
    assert_eq!(mark.max, None);
    let list = &field(&sidecar.scalar_fields, "list").stats;
    assert_eq!(list.present_count, 1);
    assert_eq!(list.distinct_count, 0);
    assert_eq!(sidecar.scalar_fields.len(), 3);
}
