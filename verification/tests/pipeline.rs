use docpipe::doc::{merge_documents, project_document};
use docpipe::decode::{classify_content_type, split_attrs, ContentType};
use docpipe::error::{ApiError, TaskError};
use docpipe::service::Core;
use docpipe::store::UpdateMethod;
use docpipe::tasks::{next_engine_attempt, IndexHandle, Mutation, RetryDecision, TaskStatus};
use docpipe::value::{Document, Field, Value};

fn doc(fields: Vec<(&str, Value)>) -> Document {
    Document {
        fields: fields
            .into_iter()
            .map(|(n, v)| Field { name: n.as_bytes().to_vec(), value: v })
            .collect(),
    }
}

fn num(i: i64) -> Value {
    Value::Int(i)
}

fn run_all(h: &mut IndexHandle, now: u64) {
    while h.start_next().is_some() {
        h.finish_active(now);
    }
}

fn field<'a>(d: &'a Document, name: &str) -> Option<&'a Value> {
    d.fields
        .iter()
        .find(|f| f.name == name.as_bytes().to_vec())
        .map(|f| &f.value)
}

#[test]
fn replace_then_list_contains_batch() {
    let mut h = IndexHandle::new();
    let batch = vec![
        doc(vec![("id", num(1)), ("title", Value::Str(b"one".to_vec()))]),
        doc(vec![("id", num(2)), ("title", Value::Str(b"two".to_vec()))]),
    ];
    let t = h.enqueue(
        Mutation::Add { docs: batch, method: UpdateMethod::ReplaceDocuments, explicit_pk: None },
        7,
    );
    assert_eq!(t, 0);
    run_all(&mut h, 8);
    assert_eq!(h.task(0).unwrap().status, TaskStatus::Succeeded);
    let listed = h.store.list(0, 20, None);
    assert_eq!(listed.len(), 2);
    assert_eq!(field(&listed[0], "id"), Some(&num(1)));
    assert_eq!(field(&listed[1], "id"), Some(&num(2)));
}

#[test]
fn merge_preserves_absent_fields_and_overwrites_present() {
    let base = doc(vec![("a", num(1)), ("b", num(2))]);
    let inc = doc(vec![("b", num(3))]);
    let merged = merge_documents(&base, &inc);
    assert_eq!(merged, doc(vec![("a", num(1)), ("b", num(3))]));
}

#[test]
fn replace_overwrites_wholesale() {
    let mut h = IndexHandle::new();
    let first = vec![doc(vec![("id", num(1)), ("a", num(1)), ("b", num(2))])];
    h.enqueue(
        Mutation::Add { docs: first, method: UpdateMethod::ReplaceDocuments, explicit_pk: None },
        1,
    );
    let second = vec![doc(vec![("id", num(1)), ("b", num(3))])];
    h.enqueue(
        Mutation::Add { docs: second, method: UpdateMethod::ReplaceDocuments, explicit_pk: None },
        2,
    );
    run_all(&mut h, 3);
    let listed = h.store.list(0, 20, None);
    assert_eq!(listed.len(), 1);
    assert_eq!(listed[0], doc(vec![("id", num(1)), ("b", num(3))]));
}

#[test]
fn merge_method_merges_committed_document() {
    let mut h = IndexHandle::new();
    h.enqueue(
        Mutation::Add {
            docs: vec![doc(vec![("id", num(1)), ("a", num(1)), ("b", num(2))])],
            method: UpdateMethod::ReplaceDocuments,
            explicit_pk: None,
        },
        1,
    );
    h.enqueue(
        Mutation::Add {
            docs: vec![doc(vec![("id", num(1)), ("b", num(3))])],
            method: UpdateMethod::UpdateDocuments,
            explicit_pk: None,
        },
        2,
    );
    run_all(&mut h, 3);
    let listed = h.store.list(0, 20, None);
    assert_eq!(listed.len(), 1);
    assert_eq!(listed[0], doc(vec![("id", num(1)), ("a", num(1)), ("b", num(3))]));
}

#[test]
fn established_key_is_reused_not_reinferred() {
    let mut h = IndexHandle::new();
    h.enqueue(
        Mutation::Add {
            docs: vec![doc(vec![("id", num(1))])],
            method: UpdateMethod::ReplaceDocuments,
            explicit_pk: None,
        },
        1,
    );
    run_all(&mut h, 2);
    assert_eq!(h.store.primary_key, Some(b"id".to_vec()));
    // A batch whose only id-like field would be ambiguous to inference is
    // still accepted: the established key is used as it stands.
    h.enqueue(
        Mutation::Add {
            docs: vec![doc(vec![("id", num(2)), ("uid", num(9))])],
            method: UpdateMethod::ReplaceDocuments,
            explicit_pk: None,
        },
        3,
    );
    run_all(&mut h, 4);
    assert_eq!(h.task(1).unwrap().status, TaskStatus::Succeeded);
    assert_eq!(h.store.primary_key, Some(b"id".to_vec()));
}

#[test]
fn pagination_is_exhaustive_and_stable() {
    let mut h = IndexHandle::new();
    let batch: Vec<Document> = (1..=5).map(|i| doc(vec![("id", num(i))])).collect();
    h.enqueue(
        Mutation::Add { docs: batch, method: UpdateMethod::ReplaceDocuments, explicit_pk: None },
        1,
    );
    run_all(&mut h, 2);
    let mut all: Vec<Document> = Vec::new();
    let mut offset = 0;
    loop {
        let page = h.store.list(offset, 2, None);
        if page.is_empty() {
            break;
        }
        offset += page.len();
        all.extend(page);
    }
    let expect: Vec<Document> = (1..=5).map(|i| doc(vec![("id", num(i))])).collect();
    assert_eq!(all, expect);
    assert!(h.store.list(99, 2, None).is_empty());
    assert!(h.store.list(0, 0, None).is_empty());
}

#[test]
fn projection_keeps_requested_present_fields_only() {
    let attrs = vec![b"a".to_vec()];
    let with_a = project_document(&doc(vec![("a", num(1)), ("b", num(2))]), &attrs);
    assert_eq!(with_a, doc(vec![("a", num(1))]));
    let without_a = project_document(&doc(vec![("b", num(2))]), &attrs);
    assert_eq!(without_a, doc(vec![]));
}

#[test]
fn task_ids_increase_and_batches_apply_in_submission_order() {
    let mut h = IndexHandle::new();
    let t0 = h.enqueue(
        Mutation::Add {
            docs: vec![doc(vec![("id", num(1)), ("v", num(10))])],
            method: UpdateMethod::ReplaceDocuments,
            explicit_pk: None,
        },
        1,
    );
    let t1 = h.enqueue(
        Mutation::Add {
            docs: vec![doc(vec![("id", num(1)), ("v", num(20))])],
            method: UpdateMethod::ReplaceDocuments,
            explicit_pk: None,
        },
        1,
    );
    assert!(t1 > t0);
    run_all(&mut h, 2);
    let listed = h.store.list(0, 20, None);
    assert_eq!(listed.len(), 1);
    assert_eq!(field(&listed[0], "v"), Some(&num(20)));
}

#[test]
fn deleting_unknown_ids_succeeds_and_removes_nothing() {
    let mut h = IndexHandle::new();
    h.enqueue(
        Mutation::Add {
            docs: vec![doc(vec![("id", num(1))])],
            method: UpdateMethod::ReplaceDocuments,
            explicit_pk: None,
        },
        1,
    );
    h.enqueue(Mutation::Delete { ids: vec![num(7), num(8)] }, 1);
    run_all(&mut h, 2);
    assert_eq!(h.task(1).unwrap().status, TaskStatus::Succeeded);
    assert_eq!(h.store.list(0, 20, None).len(), 1);
}

#[test]
fn delete_removes_matching_ids() {
    let mut h = IndexHandle::new();
    h.enqueue(
        Mutation::Add {
            docs: vec![doc(vec![("id", num(1))]), doc(vec![("id", num(2))])],
            method: UpdateMethod::ReplaceDocuments,
            explicit_pk: None,
        },
        1,
    );
    h.enqueue(Mutation::Delete { ids: vec![num(1)] }, 1);
    run_all(&mut h, 2);
    let listed = h.store.list(0, 20, None);
    assert_eq!(listed.len(), 1);
    assert_eq!(field(&listed[0], "id"), Some(&num(2)));
}

#[test]
fn clear_resets_primary_key_and_reinfers() {
    let mut h = IndexHandle::new();
    h.enqueue(
        Mutation::Add {
            docs: vec![doc(vec![("id", num(1))])],
            method: UpdateMethod::ReplaceDocuments,
            explicit_pk: None,
        },
        1,
    );
    run_all(&mut h, 2);
    assert_eq!(h.store.primary_key, Some(b"id".to_vec()));
    h.enqueue(Mutation::Clear, 3);
    run_all(&mut h, 4);
    assert_eq!(h.store.primary_key, None);
    assert_eq!(h.store.list(0, 20, None).len(), 0);
    h.enqueue(
        Mutation::Add {
            docs: vec![doc(vec![("movie_id", num(5))])],
            method: UpdateMethod::ReplaceDocuments,
            explicit_pk: None,
        },
        5,
    );
    run_all(&mut h, 6);
    assert_eq!(h.store.primary_key, Some(b"movie_id".to_vec()));
}

#[test]
fn ambiguous_inference_fails_the_task() {
    let mut h = IndexHandle::new();
    h.enqueue(
        Mutation::Add {
            docs: vec![doc(vec![("id", num(1)), ("uid", num(2))])],
            method: UpdateMethod::ReplaceDocuments,
            explicit_pk: None,
        },
        1,
    );
    run_all(&mut h, 2);
    assert_eq!(
        h.task(0).unwrap().status,
        TaskStatus::Failed(TaskError::PrimaryKeyInferenceFailed)
    );
    assert_eq!(h.store.list(0, 20, None).len(), 0);
}

#[test]
fn missing_key_fails_with_first_offending_document() {
    let mut h = IndexHandle::new();
    h.enqueue(
        Mutation::Add {
            docs: vec![
                doc(vec![("id", num(1))]),
                doc(vec![("name", Value::Str(b"x".to_vec()))]),
            ],
            method: UpdateMethod::ReplaceDocuments,
            explicit_pk: Some(b"id".to_vec()),
        },
        1,
    );
    run_all(&mut h, 2);
    assert_eq!(
        h.task(0).unwrap().status,
        TaskStatus::Failed(TaskError::MissingPrimaryKey { doc_index: 1 })
    );
    assert_eq!(h.store.list(0, 20, None).len(), 0);
}

#[test]
fn ambiguous_inference_is_rejected_before_any_task() {
    let mut core = Core::new();
    let uid = b"movies".to_vec();
    let ct = b"application/json".to_vec();
    let r = core.submit_documents(
        &uid,
        Some(&ct),
        Ok(vec![doc(vec![("id", num(1)), ("uid", num(2))])]),
        UpdateMethod::ReplaceDocuments,
        None,
        1,
    );
    assert_eq!(r, Err(ApiError::PrimaryKeyInferenceFailed));
    assert_eq!(core.indexes.len(), 0);
}

#[test]
fn missing_supplied_key_is_rejected_before_any_task() {
    let mut core = Core::new();
    let uid = b"movies".to_vec();
    let ct = b"application/json".to_vec();
    let r = core.submit_documents(
        &uid,
        Some(&ct),
        Ok(vec![
            doc(vec![("id", num(1))]),
            doc(vec![("name", Value::Str(b"x".to_vec()))]),
        ]),
        UpdateMethod::ReplaceDocuments,
        None,
        1,
    );
    // primaryKey=id supplied out of band
    let r2 = core.submit_documents(
        &uid,
        Some(&ct),
        Ok(vec![
            doc(vec![("id", num(1))]),
            doc(vec![("name", Value::Str(b"x".to_vec()))]),
        ]),
        UpdateMethod::ReplaceDocuments,
        Some(b"id".to_vec()),
        1,
    );
    // Without a supplied key the second document blocks inference entirely.
    assert_eq!(r, Err(ApiError::PrimaryKeyInferenceFailed));
    // With primaryKey=id supplied, validation names the first offender.
    assert_eq!(r2, Err(ApiError::MissingPrimaryKey { doc_index: 1 }));
    assert_eq!(core.indexes.len(), 0);
}

#[test]
fn single_delete_removes_exactly_that_document() {
    let mut core = Core::new();
    let uid = b"movies".to_vec();
    let ct = b"application/json".to_vec();
    core.submit_documents(
        &uid,
        Some(&ct),
        Ok(vec![
            doc(vec![("id", num(1)), ("t", num(9))]),
            doc(vec![("id", num(2)), ("t", num(8))]),
        ]),
        UpdateMethod::ReplaceDocuments,
        None,
        1,
    )
    .unwrap();
    while core.indexes[0].handle.start_next().is_some() {
        core.indexes[0].handle.finish_active(2);
    }
    let tasks_before = core.indexes[0].handle.tasks.len();
    assert_eq!(core.delete_document(&uid, &num(5), 3), Err(ApiError::DocumentNotFound));
    assert_eq!(core.indexes[0].handle.tasks.len(), tasks_before);
    core.delete_document(&uid, &num(1), 3).unwrap();
    while core.indexes[0].handle.start_next().is_some() {
        core.indexes[0].handle.finish_active(4);
    }
    let listed = core.list_documents(&uid, 0, 20, None).unwrap();
    assert_eq!(listed, vec![doc(vec![("id", num(2)), ("t", num(8))])]);
}

#[test]
fn unsupported_content_type_creates_no_task() {
    let mut core = Core::new();
    let uid = b"movies".to_vec();
    let r = core.submit_documents(
        &uid,
        Some(&b"text/plain".to_vec()),
        Ok(vec![doc(vec![("id", num(1))])]),
        UpdateMethod::ReplaceDocuments,
        None,
        1,
    );
    assert_eq!(r, Err(ApiError::UnsupportedMediaType));
    assert_eq!(core.indexes.len(), 0);
}

#[test]
fn malformed_payload_creates_no_task_and_leaves_documents() {
    let mut core = Core::new();
    let uid = b"movies".to_vec();
    let ct = b"application/json".to_vec();
    let ok = core.submit_documents(
        &uid,
        Some(&ct),
        Ok(vec![doc(vec![("id", num(1))])]),
        UpdateMethod::ReplaceDocuments,
        None,
        1,
    );
    assert_eq!(ok, Ok(0));
    while core.indexes[0].handle.start_next().is_some() {
        core.indexes[0].handle.finish_active(2);
    }
    let bad = core.submit_documents(
        &uid,
        Some(&ct),
        Err(17),
        UpdateMethod::ReplaceDocuments,
        None,
        3,
    );
    assert_eq!(bad, Err(ApiError::MalformedPayload { position: 17 }));
    assert_eq!(core.indexes[0].handle.tasks.len(), 1);
    let listed = core.list_documents(&uid, 0, 20, None).unwrap();
    assert_eq!(listed.len(), 1);
}

#[test]
fn single_document_routes() {
    let mut core = Core::new();
    let uid = b"movies".to_vec();
    let ct = b"application/json".to_vec();
    core.submit_documents(
        &uid,
        Some(&ct),
        Ok(vec![doc(vec![("id", num(1)), ("t", num(9))])]),
        UpdateMethod::ReplaceDocuments,
        None,
        1,
    )
    .unwrap();
    while core.indexes[0].handle.start_next().is_some() {
        core.indexes[0].handle.finish_active(2);
    }
    let d = core.get_document(&uid, &num(1)).unwrap();
    assert_eq!(field(d, "t"), Some(&num(9)));
    assert_eq!(core.get_document(&uid, &num(5)), Err(ApiError::DocumentNotFound));
    assert_eq!(core.get_document(&b"nope".to_vec(), &num(1)), Err(ApiError::IndexNotFound));
    assert_eq!(core.delete_document(&uid, &num(5), 3), Err(ApiError::DocumentNotFound));
    let t = core.delete_document(&uid, &num(1), 3).unwrap();
    assert_eq!(t, 1);
    while core.indexes[0].handle.start_next().is_some() {
        core.indexes[0].handle.finish_active(4);
    }
    assert_eq!(core.list_documents(&uid, 0, 20, None).unwrap().len(), 0);
}

#[test]
fn content_type_containment_matches_routing_guard() {
    assert_eq!(
        classify_content_type(Some(&b"application/json; charset=utf-8".to_vec())),
        ContentType::Json
    );
    assert_eq!(classify_content_type(Some(&b"text/plain".to_vec())), ContentType::Unsupported);
    assert_eq!(classify_content_type(None), ContentType::Unsupported);
}

#[test]
fn attribute_list_splits_on_commas() {
    let parts = split_attrs(&b"title,overview".to_vec());
    assert_eq!(parts, vec![b"title".to_vec(), b"overview".to_vec()]);
    let one = split_attrs(&b"title".to_vec());
    assert_eq!(one, vec![b"title".to_vec()]);
}

#[test]
fn engine_retry_policy_backs_off_then_gives_up() {
    assert_eq!(next_engine_attempt(0, 3, 100), RetryDecision::RetryAfter { backoff: 100 });
    assert_eq!(next_engine_attempt(1, 3, 100), RetryDecision::RetryAfter { backoff: 200 });
    assert_eq!(next_engine_attempt(2, 3, 100), RetryDecision::RetryAfter { backoff: 400 });
    assert_eq!(next_engine_attempt(3, 3, 100), RetryDecision::GiveUp);
    assert_eq!(next_engine_attempt(0, 0, 100), RetryDecision::GiveUp);
    assert_eq!(
        next_engine_attempt(63, 64, 1),
        RetryDecision::RetryAfter { backoff: 9223372036854775808 },
    );
    assert_eq!(next_engine_attempt(70, 71, 1), RetryDecision::RetryAfter { backoff: u64::MAX });
}

#[test]
fn tasks_survive_clear_and_ids_are_never_reused() {
    let mut h = IndexHandle::new();
    let t0 = h.enqueue(Mutation::Clear, 1);
    run_all(&mut h, 2);
    let t1 = h.enqueue(Mutation::Clear, 3);
    run_all(&mut h, 4);
    assert_eq!((t0, t1), (0, 1));
    assert_eq!(h.task(0).unwrap().status, TaskStatus::Succeeded);
    assert_eq!(h.task(0).unwrap().completed_at, Some(2));
    assert_eq!(h.task(1).unwrap().completed_at, Some(4));
}
