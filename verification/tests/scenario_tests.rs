//! End-to-end scenarios: record, finalize, reopen, replay.

use ouli::fingerprint::{fingerprint_request, Request, CHAIN_HEAD_HASH};
use ouli::recording::engine::{RecordingEngine, Response};
use ouli::replay::engine::ReplayEngine;
use ouli::replay::WarmingStrategy;
use ouli::storage::reader::RecordingReader;
use ouli::OuliError;

fn get(path: &str) -> Request {
    Request {
        method: "GET".to_string(),
        path: path.to_string(),
        query: vec![],
        headers: vec![],
        body: vec![],
    }
}

fn ok_response(body: &[u8]) -> Response {
    Response {
        status: 200,
        headers: vec![],
        body: body.to_vec(),
    }
}

#[test]
fn test_record_and_reopen_single_interaction() {
    // record one GET with empty query/headers/body; finalize; reopen
    let mut engine = RecordingEngine::new();
    let request = get("/api/test");
    let response = ok_response(b"");
    engine
        .record_interaction(Some("single"), &request, &response, 1)
        .unwrap();
    let images = engine.finalize_all();
    assert_eq!(images.len(), 1);

    let reader = RecordingReader::open(images[0].1.clone()).unwrap();
    assert_eq!(reader.interaction_count(), 1);

    let hash = fingerprint_request(&request, CHAIN_HEAD_HASH);
    let entry = reader.lookup(hash).expect("recorded request must be found");
    assert_eq!(entry.prev_request_hash, CHAIN_HEAD_HASH);
}

#[test]
fn test_two_interactions_chain_and_order() {
    // GET /a then POST /b with body "x": slot 1 chains to slot 0, replay in
    // order succeeds, replay out of order misses
    let mut engine = RecordingEngine::new();
    let req_a = get("/a");
    let req_b = Request {
        method: "POST".to_string(),
        path: "/b".to_string(),
        query: vec![],
        headers: vec![],
        body: b"x".to_vec(),
    };
    engine
        .record_interaction(Some("pair"), &req_a, &ok_response(b"A"), 1)
        .unwrap();
    engine
        .record_interaction(Some("pair"), &req_b, &ok_response(b"B"), 2)
        .unwrap();
    let images = engine.finalize_all();

    let reader = RecordingReader::open(images[0].1.clone()).unwrap();
    let entries = reader.all_entries();
    assert_eq!(entries.len(), 2);
    assert_eq!(entries[1].prev_request_hash, entries[0].request_hash);

    // replay both in order
    let mut replay = ReplayEngine::new(WarmingStrategy::Lazy);
    replay.load_recording("pair", &images[0].1).unwrap();

    let first = replay
        .replay_request(
            "GET".to_string(),
            "/a".to_string(),
            vec![],
            vec![],
            vec![],
            CHAIN_HEAD_HASH,
        )
        .unwrap();
    assert_eq!(first.body, b"A");

    let hash_a = fingerprint_request(&req_a, CHAIN_HEAD_HASH);
    let second = replay
        .replay_request(
            "POST".to_string(),
            "/b".to_string(),
            vec![],
            vec![],
            b"x".to_vec(),
            hash_a,
        )
        .unwrap();
    assert_eq!(second.body, b"B");

    // replaying the POST before the GET (chain still at the head) misses
    let out_of_order = replay.replay_request(
        "POST".to_string(),
        "/b".to_string(),
        vec![],
        vec![],
        b"x".to_vec(),
        CHAIN_HEAD_HASH,
    );
    assert!(matches!(
        out_of_order,
        Err(OuliError::RecordingNotFound(_))
    ));
}

#[test]
fn test_hundred_interactions_unbroken_chain() {
    let mut engine = RecordingEngine::new();
    let mut requests = Vec::new();
    for i in 0..100 {
        let req = get(&format!("/r/{i}"));
        engine
            .record_interaction(Some("hundred"), &req, &ok_response(format!("{i}").as_bytes()), i)
            .unwrap();
        requests.push(req);
    }
    let images = engine.finalize_all();
    let reader = RecordingReader::open(images[0].1.clone()).unwrap();
    assert_eq!(reader.interaction_count(), 100);

    let entries = reader.all_entries();
    assert_eq!(entries[0].prev_request_hash, CHAIN_HEAD_HASH);
    for i in 1..100 {
        assert_eq!(entries[i].prev_request_hash, entries[i - 1].request_hash);
    }

    // every lookup succeeds
    let mut prev = CHAIN_HEAD_HASH;
    for req in &requests {
        let hash = fingerprint_request(req, prev);
        assert!(reader.lookup(hash).is_some());
        prev = hash;
    }
}

#[test]
fn test_round_trip_byte_identical_responses() {
    // any sequence recorded and replayed with the same starting chain
    // returns byte-identical responses
    let mut engine = RecordingEngine::new();
    let bodies: Vec<Vec<u8>> = vec![b"alpha".to_vec(), vec![], vec![0, 1, 2, 255]];
    let mut requests = Vec::new();
    for (i, body) in bodies.iter().enumerate() {
        let req = Request {
            method: "PUT".to_string(),
            path: format!("/item/{i}"),
            query: vec![("v".to_string(), format!("{i}"))],
            headers: vec![("X-Case".to_string(), "roundtrip".to_string())],
            body: body.clone(),
        };
        let resp = Response {
            status: 201,
            headers: vec![("Server".to_string(), "ouli".to_string())],
            body: body.clone(),
        };
        engine
            .record_interaction(Some("rt"), &req, &resp, i as u64)
            .unwrap();
        requests.push(req);
    }
    let images = engine.finalize_all();

    let mut replay = ReplayEngine::new(WarmingStrategy::Lazy);
    replay.load_recording("rt", &images[0].1).unwrap();

    let mut prev = CHAIN_HEAD_HASH;
    for (i, req) in requests.iter().enumerate() {
        let hash = fingerprint_request(req, prev);
        let got = replay
            .replay_request(
                req.method.clone(),
                req.path.clone(),
                req.query.clone(),
                req.headers.clone(),
                req.body.clone(),
                prev,
            )
            .unwrap();
        assert_eq!(got.status, 201);
        assert_eq!(got.body, bodies[i], "replayed body must be byte-identical");
        assert_eq!(got.headers, vec![("Server".to_string(), "ouli".to_string())]);
        prev = hash;
    }
}

#[test]
fn test_zero_length_bodies_round_trip() {
    let mut engine = RecordingEngine::new();
    let req = get("/empty");
    let resp = ok_response(b"");
    engine
        .record_interaction(Some("zero"), &req, &resp, 1)
        .unwrap();
    let images = engine.finalize_all();

    let mut replay = ReplayEngine::new(WarmingStrategy::Lazy);
    replay.load_recording("zero", &images[0].1).unwrap();
    let got = replay
        .replay_request(
            "GET".to_string(),
            "/empty".to_string(),
            vec![],
            vec![],
            vec![],
            CHAIN_HEAD_HASH,
        )
        .unwrap();
    assert_eq!(got.body, b"");
    assert_eq!(got.status, 200);
}

#[test]
fn test_two_sessions_interleaved() {
    // interleaved appends into two sessions: both recordings are well
    // formed, each with its own monotone chain
    let mut engine = RecordingEngine::new();
    for i in 0..4 {
        engine
            .record_interaction(Some("t1"), &get(&format!("/one/{i}")), &ok_response(b"1"), i)
            .unwrap();
        engine
            .record_interaction(Some("t2"), &get(&format!("/two/{i}")), &ok_response(b"2"), i)
            .unwrap();
    }
    let images = engine.finalize_all();
    assert_eq!(images.len(), 2);

    for (name, image) in images {
        let reader = RecordingReader::open(image).unwrap();
        assert_eq!(reader.interaction_count(), 4, "session {name}");
        let entries = reader.all_entries();
        assert_eq!(entries[0].prev_request_hash, CHAIN_HEAD_HASH);
        for i in 1..4 {
            assert_eq!(entries[i].prev_request_hash, entries[i - 1].request_hash);
        }
    }
}

#[test]
fn test_eager_warming_two_recordings() {
    // eager-warm two recordings: cache size is the sum of their counts, and
    // a known request replays as a hit
    let mut engine = RecordingEngine::new();
    engine
        .record_interaction(Some("a"), &get("/a1"), &ok_response(b"a1"), 1)
        .unwrap();
    engine
        .record_interaction(Some("a"), &get("/a2"), &ok_response(b"a2"), 2)
        .unwrap();
    engine
        .record_interaction(Some("b"), &get("/b1"), &ok_response(b"b1"), 3)
        .unwrap();
    let images = engine.finalize_all();

    let mut replay = ReplayEngine::new(WarmingStrategy::Eager);
    replay.warm(&images).unwrap();
    assert_eq!(replay.cache_stats().size, 3);

    let got = replay
        .replay_request(
            "GET".to_string(),
            "/a1".to_string(),
            vec![],
            vec![],
            vec![],
            CHAIN_HEAD_HASH,
        )
        .unwrap();
    assert_eq!(got.body, b"a1");
    assert_eq!(replay.cache_stats().hits, 1);
}

#[test]
fn test_warm_twice_is_idempotent() {
    // warming again with the same recordings keeps the cache size, and the
    // hit/miss counters are not reset
    let mut engine = RecordingEngine::new();
    engine
        .record_interaction(Some("idem"), &get("/x"), &ok_response(b"x"), 1)
        .unwrap();
    let images = engine.finalize_all();

    let mut replay = ReplayEngine::new(WarmingStrategy::Eager);
    replay.warm(&images).unwrap();
    let size1 = replay.cache_stats().size;

    // provoke a hit and a miss so the counters are nonzero
    let _ = replay.replay_request(
        "GET".to_string(),
        "/x".to_string(),
        vec![],
        vec![],
        vec![],
        CHAIN_HEAD_HASH,
    );
    let _ = replay.replay_request(
        "GET".to_string(),
        "/missing".to_string(),
        vec![],
        vec![],
        vec![],
        CHAIN_HEAD_HASH,
    );
    let before = replay.cache_stats();

    replay.warm(&images).unwrap();
    let after = replay.cache_stats();
    assert_eq!(after.size, size1);
    assert_eq!(after.hits, before.hits);
    assert_eq!(after.misses, before.misses);
}

#[test]
fn test_finalized_header_crc_region_flip() {
    // flip one byte inside the CRC field of a finalized recording produced
    // by the engine: reopening fails with CorruptedData at offset 0
    let mut engine = RecordingEngine::new();
    engine
        .record_interaction(Some("crc"), &get("/c"), &ok_response(b"c"), 1)
        .unwrap();
    let images = engine.finalize_all();
    let mut image = images.into_iter().next().unwrap().1;
    image[13] ^= 0x40;
    match RecordingReader::open(image) {
        Err(OuliError::CorruptedData { offset, .. }) => assert_eq!(offset, 0),
        other => panic!("expected CorruptedData, got ok={}", other.is_ok()),
    }
}

#[test]
fn test_last_write_wins_for_equal_hashes() {
    // two recordings exposing the same request hash: the one loaded later
    // wins
    let mut engine = RecordingEngine::new();
    engine
        .record_interaction(Some("first"), &get("/same"), &ok_response(b"old"), 1)
        .unwrap();
    engine
        .record_interaction(Some("second"), &get("/same"), &ok_response(b"new"), 2)
        .unwrap();
    let images = engine.finalize_all();

    let mut replay = ReplayEngine::new(WarmingStrategy::Lazy);
    replay.load_recording("first", &images[0].1).unwrap();
    replay.load_recording("second", &images[1].1).unwrap();
    assert_eq!(replay.cache_stats().size, 1);

    let got = replay
        .replay_request(
            "GET".to_string(),
            "/same".to_string(),
            vec![],
            vec![],
            vec![],
            CHAIN_HEAD_HASH,
        )
        .unwrap();
    assert_eq!(got.body, b"new");
}
