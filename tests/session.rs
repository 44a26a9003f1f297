use prover::artifact::Proof;
use prover::error::ProverError;
use prover::inner::{cache_path, Event, Prover, Session, Step, TargetCircuit, INNER_DEGREE};

struct Kind;

impl TargetCircuit for Kind {}

fn artifact() -> Proof {
    Proof { proof: vec![9, 8, 7], vk: vec![1, 2] }
}

/// Runs a miss from `Normalize` on, with the engine answering `snark` and the key store `vk`.
fn run_miss(s: &mut Session, snark: Vec<u8>, vk: Option<Vec<u8>>) -> Step {
    assert!(matches!(s.handle(Event::Normalized(Ok(()))), Step::Generate));
    assert!(matches!(s.handle(Event::Generated(Ok(snark))), Step::FetchKey));
    s.handle(Event::KeyFetched(vk))
}

#[test]
fn prover_keeps_params_dir() {
    let p: Prover<Kind> = Prover::from_params_dir("/params");
    assert_eq!(p.params_dir, "/params");
    assert_eq!(p.degrees, vec![INNER_DEGREE]);
    assert_eq!(INNER_DEGREE, 20);
}

#[test]
fn cache_path_layout() {
    assert_eq!(cache_path("out", "blk"), "out/blk_full_proof.json");
    assert_eq!(cache_path("", "x"), "/x_full_proof.json");
}

#[test]
fn start_with_dir_reads_cache() {
    let (s, step) = Session::start("chunk", Some("out"), 2);
    match step {
        Step::ReadCache(p) => assert_eq!(p, "out/chunk_full_proof.json"),
        other => panic!("{:?}", other),
    }
    assert!(s.expects(&Event::CacheRead(None)));
    assert!(!s.expects(&Event::Normalized(Ok(()))));
}

#[test]
fn cache_hit_skips_generation() {
    let (mut s, _) = Session::start("chunk", Some("out"), 1);
    let bytes = artifact().to_json();
    match s.handle(Event::CacheRead(Some(bytes))) {
        Step::Finish(Ok(p)) => {
            assert_eq!(p.proof, artifact().proof);
            assert_eq!(p.vk, artifact().vk);
        }
        other => panic!("{:?}", other),
    }
    assert!(!s.expects(&Event::Generated(Ok(vec![1]))));
}

#[test]
fn cache_hit_ignores_traces() {
    let (mut s, _) = Session::start("chunk", Some("out"), 0);
    let step = s.handle(Event::CacheRead(Some(artifact().to_json())));
    assert!(matches!(step, Step::Finish(Ok(_))));
}

#[test]
fn no_dir_generates_and_never_persists() {
    let (mut s, step) = Session::start("chunk", None, 3);
    assert!(matches!(step, Step::Normalize));
    match run_miss(&mut s, vec![5, 6], Some(vec![4])) {
        Step::Finish(Ok(p)) => {
            assert_eq!(p.proof, vec![5, 6]);
            assert_eq!(p.vk, vec![4]);
        }
        other => panic!("{:?}", other),
    }
}

#[test]
fn missing_cache_file_is_a_miss() {
    let (mut s, _) = Session::start("chunk", Some("out"), 1);
    assert!(matches!(s.handle(Event::CacheRead(None)), Step::Normalize));
}

#[test]
fn malformed_cache_file_is_a_miss() {
    let (mut s, _) = Session::start("chunk", Some("out"), 1);
    let step = s.handle(Event::CacheRead(Some(b"\x00garbage{".to_vec())));
    assert!(matches!(step, Step::Normalize));
    match run_miss(&mut s, vec![1], Some(vec![2])) {
        Step::Write(path, _) => assert_eq!(path, "out/chunk_full_proof.json"),
        other => panic!("{:?}", other),
    }
}

#[test]
fn empty_traces_abort_without_dir() {
    let (_, step) = Session::start("chunk", None, 0);
    assert!(matches!(step, Step::EmptyTraces));
}

#[test]
fn empty_traces_abort_on_cache_miss() {
    let (mut s, _) = Session::start("chunk", Some("out"), 0);
    assert!(matches!(s.handle(Event::CacheRead(None)), Step::EmptyTraces));
    let (mut s, _) = Session::start("chunk", Some("out"), 0);
    assert!(matches!(s.handle(Event::CacheRead(Some(vec![1, 2]))), Step::EmptyTraces));
}

#[test]
fn persist_after_generate_then_load() {
    let (mut s, _) = Session::start("chunk", Some("out"), 1);
    s.handle(Event::CacheRead(None));
    let (path, bytes) = match run_miss(&mut s, vec![5, 6], Some(vec![4])) {
        Step::Write(path, bytes) => (path, bytes),
        other => panic!("{:?}", other),
    };
    assert_eq!(path, "out/chunk_full_proof.json");
    let returned = match s.handle(Event::Written(Ok(()))) {
        Step::Finish(Ok(p)) => p,
        other => panic!("{:?}", other),
    };
    assert_eq!(returned.proof, vec![5, 6]);
    assert_eq!(returned.vk, vec![4]);
    let (mut again, step) = Session::start("chunk", Some("out"), 1);
    assert!(matches!(step, Step::ReadCache(ref p) if *p == path));
    match again.handle(Event::CacheRead(Some(bytes))) {
        Step::Finish(Ok(p)) => {
            assert_eq!(p.proof, returned.proof);
            assert_eq!(p.vk, returned.vk);
        }
        other => panic!("{:?}", other),
    }
}

#[test]
fn unknown_circuit_id_fails_generation() {
    let (mut s, _) = Session::start("chunk", Some("out"), 1);
    s.handle(Event::CacheRead(None));
    let step = run_miss(&mut s, vec![5], None);
    assert!(matches!(step, Step::Finish(Err(ProverError::UnknownCircuitInstance))));
    assert!(!s.expects(&Event::Written(Ok(()))));
}

#[test]
fn normalization_error_is_propagated() {
    let (mut s, _) = Session::start("chunk", None, 1);
    let step = s.handle(Event::Normalized(Err("bad trace".to_string())));
    assert!(matches!(step, Step::Finish(Err(ProverError::Normalization(ref m))) if m == "bad trace"));
}

#[test]
fn proving_error_is_propagated() {
    let (mut s, _) = Session::start("chunk", None, 1);
    s.handle(Event::Normalized(Ok(())));
    let step = s.handle(Event::Generated(Err("engine".to_string())));
    assert!(matches!(step, Step::Finish(Err(ProverError::Proving(ref m))) if m == "engine"));
}

#[test]
fn empty_payload_is_an_assembly_error() {
    let (mut s, _) = Session::start("chunk", Some("out"), 1);
    s.handle(Event::CacheRead(None));
    let step = run_miss(&mut s, vec![], Some(vec![1]));
    assert!(matches!(step, Step::Finish(Err(ProverError::Assembly))));
}

#[test]
fn persist_failure_discards_artifact() {
    let (mut s, _) = Session::start("chunk", Some("out"), 1);
    s.handle(Event::CacheRead(None));
    run_miss(&mut s, vec![5], Some(vec![4]));
    let step = s.handle(Event::Written(Err("disk full".to_string())));
    assert!(matches!(step, Step::Finish(Err(ProverError::Io(ref m))) if m == "disk full"));
}
