use cryobiobank_api::registry::ConsistencyError;
use cryobiobank_api::session::{
    object_key, Action, ObjectDescriptor, SessionState, UploadError, UploadFailure, UploadOptions,
    Uploader,
    DEFAULT_MAX_CONCURRENCY, DEFAULT_PART_SIZE,
};
use std::collections::VecDeque;

const MIB: usize = 1024 * 1024;

#[derive(Debug, Clone, PartialEq)]
enum Call {
    Initiate(String),
    UploadPart(u64, usize),
    PartReturned(u64),
    Complete(Vec<u64>),
    Abort,
}

struct Run {
    result: Result<ObjectDescriptor, UploadFailure>,
    calls: Vec<Call>,
    uploaded: Vec<(u64, Vec<u8>)>,
    max_outstanding: usize,
}

struct Script {
    /// Largest piece the source hands out per read.
    read_limit: usize,
    /// Part that the store refuses.
    failing_part: Option<u64>,
    /// Answer outstanding parts newest first instead of oldest first.
    newest_first: bool,
}

fn source(len: usize) -> Vec<u8> {
    (0..len).map(|i| (i * 31 % 251) as u8).collect()
}

fn options(part_size: usize, max_concurrency: usize) -> UploadOptions {
    UploadOptions { part_size, max_concurrency }
}

/// Plays source and store for one upload until it is finished.
fn run(data: &[u8], opts: UploadOptions, script: Script) -> Run {
    let mut u = Uploader::new("prefix/object".to_string(), opts);
    let mut calls = Vec::new();
    let mut uploaded = Vec::new();
    let mut outstanding: VecDeque<(u64, Vec<u8>)> = VecDeque::new();
    let mut max_outstanding = 0;
    let mut pos = 0;
    for _ in 0..100_000 {
        match u.next_action() {
            Action::Initiate { key } => {
                calls.push(Call::Initiate(key));
                u.on_initiated("upload-1".to_string());
            }
            Action::Read { max_bytes } => {
                let n = max_bytes.min(script.read_limit).min(data.len() - pos);
                let piece = data[pos..pos + n].to_vec();
                pos += n;
                u.on_read(piece, pos == data.len());
            }
            Action::UploadPart { upload_id, part_number, bytes } => {
                assert_eq!(upload_id, "upload-1");
                calls.push(Call::UploadPart(part_number, bytes.len()));
                outstanding.push_back((part_number, bytes));
                max_outstanding = max_outstanding.max(outstanding.len());
            }
            Action::Wait => {
                let (n, bytes) = if script.newest_first {
                    outstanding.pop_back()
                } else {
                    outstanding.pop_front()
                }
                .expect("waiting with nothing outstanding");
                calls.push(Call::PartReturned(n));
                if script.failing_part == Some(n) {
                    u.on_part_failed(n, format!("part {} refused", n));
                } else {
                    uploaded.push((n, bytes));
                    u.on_part_uploaded(n, format!("etag-{}", n));
                }
            }
            Action::Complete { upload_id, parts } => {
                assert_eq!(upload_id, "upload-1");
                for p in &parts {
                    assert_eq!(p.token, format!("etag-{}", p.part_number));
                }
                calls.push(Call::Complete(parts.iter().map(|p| p.part_number).collect()));
                u.on_completed(ObjectDescriptor {
                    key: "prefix/object".to_string(),
                    e_tag: Some("final".to_string()),
                });
            }
            Action::Abort { upload_id } => {
                assert_eq!(upload_id, "upload-1");
                calls.push(Call::Abort);
                u.on_aborted();
            }
            Action::Finished => {
                let result = u.into_result().expect("a finished upload has a result");
                return Run { result, calls, uploaded, max_outstanding };
            }
        }
    }
    panic!("the upload did not finish");
}

fn plain(read_limit: usize) -> Script {
    Script { read_limit, failing_part: None, newest_first: false }
}

fn count(calls: &[Call], wanted: fn(&Call) -> bool) -> usize {
    calls.iter().filter(|c| wanted(c)).count()
}

fn is_complete(c: &Call) -> bool {
    matches!(c, Call::Complete(_))
}

fn is_abort(c: &Call) -> bool {
    matches!(c, Call::Abort)
}

fn reassembled(uploaded: &[(u64, Vec<u8>)]) -> Vec<u8> {
    let mut parts = uploaded.to_vec();
    parts.sort_by_key(|p| p.0);
    parts.into_iter().flat_map(|p| p.1).collect()
}

#[test]
fn twelve_mib_in_five_mib_parts() {
    let data = source(12 * MIB);
    let r = run(&data, options(5 * MIB, 2), plain(64 * 1024));
    let sizes: Vec<(u64, usize)> = r
        .calls
        .iter()
        .filter_map(|c| match c {
            Call::UploadPart(n, len) => Some((*n, *len)),
            _ => None,
        })
        .collect();
    assert_eq!(sizes, vec![(1, 5 * MIB), (2, 5 * MIB), (3, 2 * MIB)]);
    assert_eq!(count(&r.calls, is_complete), 1);
    assert!(r.calls.contains(&Call::Complete(vec![1, 2, 3])));
    assert_eq!(count(&r.calls, is_abort), 0);
    assert_eq!(reassembled(&r.uploaded), data);
    let object = r.result.ok().expect("upload succeeds");
    assert_eq!(object.key, "prefix/object");
    assert_eq!(object.e_tag, Some("final".to_string()));
}

#[test]
fn read_failure_after_first_part_aborts_once() {
    let mut u = Uploader::new("k".to_string(), options(4, 3));
    assert!(matches!(u.next_action(), Action::Initiate { .. }));
    u.on_initiated("id".to_string());
    assert!(matches!(u.next_action(), Action::Read { max_bytes: 4 }));
    u.on_read(vec![1, 2, 3, 4], false);
    let part = u.next_action();
    assert!(matches!(part, Action::UploadPart { part_number: 1, .. }));
    u.on_part_uploaded(1, "etag-1".to_string());
    assert!(matches!(u.next_action(), Action::Read { max_bytes: 4 }));
    u.on_read_failed("disk gone".to_string());
    match u.next_action() {
        Action::Abort { upload_id } => assert_eq!(upload_id, "id"),
        _ => panic!("expected an abort"),
    }
    assert_eq!(u.state(), SessionState::Aborting);
    assert!(matches!(u.next_action(), Action::Wait));
    u.on_aborted();
    assert!(matches!(u.next_action(), Action::Finished));
    assert!(matches!(u.next_action(), Action::Finished));
    match u.into_result() {
        Some(Err(f)) => {
            assert!(matches!(f.error, UploadError::SourceRead(ref m) if m == "disk gone"));
            assert!(f.abort_error.is_none());
        }
        _ => panic!("expected the read error"),
    }
}

#[test]
fn single_slot_uploads_one_part_at_a_time() {
    let data = source(10 * 7 + 3);
    let r = run(&data, options(7, 1), plain(5));
    let mut open: Option<u64> = None;
    let mut last = 0;
    for c in &r.calls {
        match c {
            Call::UploadPart(n, _) => {
                assert!(open.is_none(), "part {} started while another was out", n);
                assert_eq!(*n, last + 1);
                open = Some(*n);
                last = *n;
            }
            Call::PartReturned(n) => {
                assert_eq!(open, Some(*n));
                open = None;
            }
            _ => {}
        }
    }
    assert_eq!(last, 11);
    assert_eq!(r.max_outstanding, 1);
    assert_eq!(reassembled(&r.uploaded), data);
}

#[test]
fn parts_put_back_together_give_the_source() {
    for (len, part_size, reads) in [(0, 5, 3), (1, 5, 1), (5, 5, 2), (6, 5, 6), (15, 5, 4), (999, 64, 17)] {
        let data = source(len);
        let r = run(&data, options(part_size, 3), plain(reads));
        assert_eq!(reassembled(&r.uploaded), data, "length {}", len);
        assert!(r.result.is_ok());
    }
}

#[test]
fn part_numbers_are_one_to_n() {
    for (len, part_size, expected) in [(0, 5, 0u64), (5, 5, 1), (10, 5, 2), (11, 5, 3), (1, 8, 1)] {
        let data = source(len);
        let r = run(&data, options(part_size, 2), plain(3));
        let numbers: Vec<u64> = r
            .calls
            .iter()
            .filter_map(|c| match c {
                Call::UploadPart(n, _) => Some(*n),
                _ => None,
            })
            .collect();
        assert_eq!(numbers, (1..=expected).collect::<Vec<u64>>(), "length {}", len);
        assert!(r.calls.contains(&Call::Complete((1..=expected).collect())));
    }
}

#[test]
fn empty_source_completes_with_no_parts() {
    let r = run(&[], options(5, 2), plain(5));
    assert_eq!(
        r.calls,
        vec![Call::Initiate("prefix/object".to_string()), Call::Complete(vec![])]
    );
    assert!(r.result.is_ok());
}

#[test]
fn outstanding_parts_stay_within_limit() {
    let data = source(100);
    for limit in [1, 2, 3, 7] {
        let script = Script { read_limit: 100, failing_part: None, newest_first: true };
        let r = run(&data, options(4, limit), script);
        assert_eq!(r.max_outstanding, limit);
        assert_eq!(reassembled(&r.uploaded), data);
        assert!(r.calls.contains(&Call::Complete((1..=25).collect())));
    }
}

#[test]
fn part_failure_aborts_once_and_never_completes() {
    let data = source(40);
    let script = Script { read_limit: 40, failing_part: Some(2), newest_first: false };
    let r = run(&data, options(4, 3), script);
    assert_eq!(count(&r.calls, is_complete), 0);
    assert_eq!(count(&r.calls, is_abort), 1);
    assert_eq!(r.calls.last(), Some(&Call::Abort));
    // every part sent was answered before the abort
    let sent = r.calls.iter().filter(|c| matches!(c, Call::UploadPart(..))).count();
    let returned = r.calls.iter().filter(|c| matches!(c, Call::PartReturned(_))).count();
    assert_eq!(sent, returned);
    // no part is sent once the failure is known
    let failed_at = r.calls.iter().position(|c| *c == Call::PartReturned(2)).unwrap();
    assert!(!r.calls[failed_at..].iter().any(|c| matches!(c, Call::UploadPart(..))));
    match r.result {
        Err(f) => {
            assert!(matches!(f.error, UploadError::PartUpload { part_number: 2, .. }))
        }
        Ok(_) => panic!("expected a failure"),
    }
}

#[test]
fn two_failures_trigger_one_abort() {
    let mut u = Uploader::new("k".to_string(), options(2, 4));
    u.next_action();
    u.on_initiated("id".to_string());
    u.next_action();
    u.on_read(vec![1, 2, 3, 4, 5, 6], true);
    for n in 1..=3 {
        assert!(matches!(u.next_action(), Action::UploadPart { part_number, .. } if part_number == n));
    }
    assert!(matches!(u.next_action(), Action::Wait));
    u.on_part_failed(3, "third".to_string());
    assert!(matches!(u.next_action(), Action::Wait));
    u.on_part_failed(1, "first".to_string());
    // a report for a part that is not outstanding changes nothing
    u.on_part_failed(1, "again".to_string());
    assert_eq!(u.in_flight_count(), 1);
    assert!(matches!(u.next_action(), Action::Wait));
    u.on_part_uploaded(2, "etag-2".to_string());
    assert!(matches!(u.next_action(), Action::Abort { .. }));
    assert!(matches!(u.next_action(), Action::Wait));
    u.on_abort_failed("store unreachable".to_string());
    assert!(matches!(u.next_action(), Action::Finished));
    match u.into_result() {
        Some(Err(f)) => {
            assert!(matches!(f.error, UploadError::PartUpload { part_number: 3, ref message } if message == "third"));
            assert_eq!(f.abort_error, Some("store unreachable".to_string()));
        }
        _ => panic!("expected a failure"),
    }
}

#[test]
fn two_uploads_of_the_same_key_are_independent() {
    let mut a = Uploader::new("same".to_string(), options(3, 2));
    let mut b = Uploader::new("same".to_string(), options(3, 2));
    assert!(matches!(a.next_action(), Action::Initiate { ref key } if key == "same"));
    assert!(matches!(b.next_action(), Action::Initiate { ref key } if key == "same"));
    a.on_initiated("session-a".to_string());
    b.on_initiated("session-b".to_string());
    a.next_action();
    b.next_action();
    a.on_read(vec![1, 2, 3], true);
    b.on_read(vec![1, 2, 3], true);
    assert!(matches!(a.next_action(), Action::UploadPart { ref upload_id, part_number: 1, .. } if upload_id == "session-a"));
    assert!(matches!(b.next_action(), Action::UploadPart { ref upload_id, part_number: 1, .. } if upload_id == "session-b"));
    a.on_part_failed(1, "refused".to_string());
    b.on_part_uploaded(1, "etag".to_string());
    assert!(matches!(a.next_action(), Action::Abort { ref upload_id } if upload_id == "session-a"));
    assert!(matches!(b.next_action(), Action::Complete { ref upload_id, ref parts } if upload_id == "session-b" && parts.len() == 1));
    a.on_aborted();
    b.on_completed(ObjectDescriptor { key: "same".to_string(), e_tag: None });
    assert!(matches!(a.into_result(), Some(Err(_))));
    assert!(matches!(b.into_result(), Some(Ok(_))));
}

#[test]
fn initiate_failure_ends_without_abort() {
    let mut u = Uploader::new("k".to_string(), UploadOptions::default());
    assert!(matches!(u.next_action(), Action::Initiate { .. }));
    assert!(matches!(u.next_action(), Action::Wait));
    u.on_initiate_failed("denied".to_string());
    assert_eq!(u.state(), SessionState::Failed);
    assert!(matches!(u.next_action(), Action::Finished));
    match u.into_result() {
        Some(Err(f)) => assert!(matches!(f.error, UploadError::InitiateFailed(ref m) if m == "denied")),
        _ => panic!("expected a failure"),
    }
}

#[test]
fn complete_failure_is_reported_apart() {
    let mut u = Uploader::new("k".to_string(), options(4, 1));
    u.next_action();
    u.on_initiated("id".to_string());
    u.next_action();
    u.on_read(vec![9, 9], true);
    assert!(matches!(u.next_action(), Action::UploadPart { part_number: 1, .. }));
    u.on_part_uploaded(1, "etag-1".to_string());
    assert!(matches!(u.next_action(), Action::Complete { .. }));
    u.on_complete_failed("timeout".to_string());
    assert!(matches!(u.next_action(), Action::Finished));
    match u.into_result() {
        Some(Err(f)) => {
            assert!(matches!(f.error, UploadError::CompleteFailed(ref m) if m == "timeout"));
            assert!(f.abort_error.is_none());
        }
        _ => panic!("expected a failure"),
    }
}

#[test]
fn full_buffer_waits_for_a_slot() {
    let mut u = Uploader::new("k".to_string(), options(2, 1));
    u.next_action();
    u.on_initiated("id".to_string());
    u.next_action();
    u.on_read(vec![1, 2, 3, 4], false);
    assert!(matches!(u.next_action(), Action::UploadPart { part_number: 1, ref bytes, .. } if *bytes == vec![1, 2]));
    assert!(matches!(u.next_action(), Action::Wait));
    u.on_part_uploaded(1, "e1".to_string());
    assert!(matches!(u.next_action(), Action::UploadPart { part_number: 2, ref bytes, .. } if *bytes == vec![3, 4]));
    assert!(matches!(u.next_action(), Action::Wait));
    u.on_part_uploaded(2, "e2".to_string());
    assert!(matches!(u.next_action(), Action::Read { max_bytes: 2 }));
    u.on_read(Vec::new(), true);
    match u.next_action() {
        Action::Complete { parts, .. } => {
            let got: Vec<(u64, String)> = parts.into_iter().map(|p| (p.part_number, p.token)).collect();
            assert_eq!(got, vec![(1, "e1".to_string()), (2, "e2".to_string())]);
        }
        _ => panic!("expected completion"),
    }
}

#[test]
fn unexpected_events_are_ignored() {
    let mut u = Uploader::new("k".to_string(), options(2, 1));
    u.on_initiated("early".to_string());
    u.on_read(vec![1], true);
    u.on_part_uploaded(1, "x".to_string());
    u.on_completed(ObjectDescriptor { key: "k".to_string(), e_tag: None });
    assert_eq!(u.state(), SessionState::Created);
    assert!(u.into_result().is_none());
}

#[test]
fn default_options() {
    let o = UploadOptions::default();
    assert_eq!(o.part_size, 5 * 1024 * 1024);
    assert_eq!(o.max_concurrency, 10);
    assert_eq!(DEFAULT_PART_SIZE, 5 * 1024 * 1024);
    assert_eq!(DEFAULT_MAX_CONCURRENCY, 10);
}

#[test]
fn consistency_error_compares() {
    assert_eq!(ConsistencyError::Missing(2), ConsistencyError::Missing(2));
    assert_ne!(ConsistencyError::Missing(2), ConsistencyError::TooManyParts);
}

#[test]
fn object_key_joins_prefix_and_name() {
    assert_eq!(object_key("submissions", "run-7.tar"), "submissions/run-7.tar");
    assert_eq!(object_key("", "a"), "/a");
}
