
use dynamodb_client::aggregate::{AggregateResult, BatchWriteOutput, TableRequests, TOTAL_REQUEST_COUNT};
use dynamodb_client::error::Error;
use dynamodb_client::request::{create_write_request, AttrValue, ItemWrite};
use dynamodb_client::summary::{
    aggregate_channel_results, aggregate_joined_results, aggregate_request_results, first_failure,
    summarize_counted, summarize_kept, BatchResult,
};

fn req(id: usize) -> ItemWrite {
    create_write_request(id.to_string(), "SortKeyValue".to_string())
}

fn id_of(r: &ItemWrite) -> String {
    match &r.put_item.as_ref().unwrap()[0] {
        (name, AttrValue::S(s)) if name == "id" => s.clone(),
        _ => panic!("no id"),
    }
}

fn output(tables: Vec<(&str, Vec<usize>)>) -> BatchWriteOutput {
    BatchWriteOutput {
        unprocessed_items: Some(
            tables
                .into_iter()
                .map(|(t, ids)| TableRequests { table: t.to_string(), requests: ids.into_iter().map(req).collect() })
                .collect(),
        ),
    }
}

fn empty_output() -> BatchWriteOutput {
    BatchWriteOutput { unprocessed_items: None }
}

#[test]
fn new_aggregate_is_empty() {
    let a = AggregateResult::new();
    assert_eq!(TOTAL_REQUEST_COUNT, 25);
    assert_eq!(a.success_count(), 0);
    assert_eq!(a.unprocessed_count(), 0);
    assert_eq!(a.retry_success_count(), 0);
    assert!(a.error_messages().is_empty());
    assert!(a.retry_error_messages().is_empty());
    let r = a.process_final_result();
    assert_eq!(r.successful_items, 0);
    assert_eq!(r.unprocessed_items, None);
    assert!(r.error_messages.is_none());
}

#[test]
fn add_success_counts_and_keeps_unprocessed() {
    let mut a = AggregateResult::new();
    a.add_success::<String>(Ok(output(vec![("books", vec![1, 2, 3])])));
    assert_eq!(a.success_count(), 22);
    assert_eq!(a.unprocessed_count(), 3);
    a.add_success::<String>(Ok(empty_output()));
    assert_eq!(a.success_count(), 47);
    assert_eq!(a.unprocessed_count(), 3);
    a.add_success::<String>(Ok(output(vec![("books", vec![4]), ("other", vec![5, 6])])));
    assert_eq!(a.success_count(), 69);
    assert_eq!(a.unprocessed_count(), 6);
    let retry: Vec<String> = a.take_unprocessed_requests().iter().map(id_of).collect();
    assert_eq!(retry, vec!["1", "2", "3", "4", "5", "6"]);
    assert!(a.take_unprocessed_requests().is_empty());
    assert_eq!(a.unprocessed_count(), 6);
}

#[test]
fn add_success_ignores_failures() {
    let mut a = AggregateResult::new();
    a.add_success(Err("throttled".to_string()));
    assert_eq!(a.success_count(), 0);
    assert!(a.error_messages().is_empty());
    assert!(a.take_unprocessed_requests().is_empty());
}

#[test]
fn add_output_success_drops_unprocessed() {
    let mut a = AggregateResult::new();
    a.add_output_success(output(vec![("books", vec![1, 2, 3, 4, 5])]));
    assert_eq!(a.success_count(), 20);
    assert_eq!(a.unprocessed_count(), 0);
    assert!(a.take_unprocessed_requests().is_empty());
    a.add_output_success(empty_output());
    assert_eq!(a.success_count(), 45);
    a.add_output_success(BatchWriteOutput { unprocessed_items: Some(vec![]) });
    assert_eq!(a.success_count(), 70);
}

#[test]
fn errors_are_recorded_in_order() {
    let mut a = AggregateResult::new();
    a.add_sdk_error("service error".to_string());
    a.add_error(Error::unhandled("dispatch failure".to_string()));
    a.add_join_error("task 3 panicked".to_string());
    assert_eq!(a.error_messages(), &vec!["service error".to_string(), "unhandled error".to_string(), "task 3 panicked".to_string()]);
    let r = a.process_final_result();
    assert_eq!(r.error_messages.unwrap().len(), 3);
}

#[test]
fn retry_results_are_counted() {
    let mut a = AggregateResult::new();
    a.record_retry_result::<()>(Ok(()));
    a.record_retry_result::<()>(Err("still throttled".to_string()));
    a.record_retry_result::<()>(Ok(()));
    assert_eq!(a.retry_success_count(), 2);
    assert_eq!(a.retry_error_messages(), &vec!["still throttled".to_string()]);
    assert!(a.error_messages().is_empty());
}

#[test]
fn final_report_adds_retried_items() {
    let mut a = AggregateResult::new();
    a.add_success::<String>(Ok(output(vec![("books", vec![1, 2])])));
    for _ in a.take_unprocessed_requests() {
        a.record_retry_result::<()>(Ok(()));
    }
    let r = a.process_final_result();
    assert_eq!(r.successful_items, 25);
    assert_eq!(r.unprocessed_items, Some(2));
    assert!(r.error_messages.is_none());
}

#[test]
fn unprocessed_of_one_table_are_merged_in_order() {
    let mut a = AggregateResult::new();
    a.add_success::<String>(Ok(output(vec![("books", vec![1]), ("books", vec![2, 3])])));
    a.add_success::<String>(Ok(output(vec![("other", vec![9])])));
    a.add_success::<String>(Ok(output(vec![("books", vec![4])])));
    let retry: Vec<String> = a.take_unprocessed_requests().iter().map(id_of).collect();
    assert_eq!(retry, vec!["1", "2", "3", "4", "9"]);
    assert_eq!(a.unprocessed_count(), 5);
}

#[test]
fn channel_results_record_unhandled_errors() {
    let a = aggregate_channel_results(vec![
        Ok(empty_output()),
        Err(Error::unhandled("boom".to_string())),
        Ok(output(vec![("books", vec![1, 2])])),
    ]);
    assert_eq!(a.success_count(), 48);
    assert_eq!(a.unprocessed_count(), 0);
    assert_eq!(a.error_messages(), &vec!["unhandled error".to_string()]);
}

#[test]
fn joined_results_keep_unprocessed_and_drop_request_failures() {
    let mut a = aggregate_joined_results(vec![
        Ok(Ok(output(vec![("books", vec![7])]))),
        Ok(Err("request failed".to_string())),
        Err("task cancelled".to_string()),
        Ok(Ok(empty_output())),
    ]);
    assert_eq!(a.success_count(), 49);
    assert_eq!(a.unprocessed_count(), 1);
    assert_eq!(a.error_messages(), &vec!["task cancelled".to_string()]);
    let retry: Vec<String> = a.take_unprocessed_requests().iter().map(id_of).collect();
    assert_eq!(retry, vec!["7"]);
}

#[test]
fn request_results_record_failures() {
    let a = aggregate_request_results(vec![
        Ok(empty_output()),
        Err("request failed".to_string()),
        Ok(output(vec![("books", vec![1, 2, 3])])),
        Ok(empty_output()),
    ]);
    assert_eq!(a.success_count(), 72);
    assert_eq!(a.unprocessed_count(), 0);
    assert_eq!(a.error_messages(), &vec!["request failed".to_string()]);
}

#[test]
fn summaries_of_batch_results() {
    let a = summarize_counted(vec![BatchResult::Written(empty_output()), BatchResult::Dropped, BatchResult::Failed("x".to_string())]);
    assert_eq!(a.success_count(), 25);
    assert_eq!(a.error_messages(), &vec!["x".to_string()]);
    let a = summarize_kept(vec![BatchResult::Written(output(vec![("books", vec![1])])), BatchResult::Failed("y".to_string())]);
    assert_eq!(a.success_count(), 24);
    assert_eq!(a.unprocessed_count(), 1);
    assert_eq!(a.error_messages(), &vec!["y".to_string()]);
}

#[test]
fn every_reply_counts_a_full_batch() {
    // A reply counts a full batch less its unprocessed requests, whatever the batch held.
    let mut a = AggregateResult::new();
    a.add_success::<String>(Ok(output(vec![("books", vec![1, 2])])));
    assert_eq!(a.success_count(), 23);
    assert_eq!(a.unprocessed_count(), 2);
    a.add_output_success(output(vec![("books", (0..25).collect())]));
    assert_eq!(a.success_count(), 23);
}

#[test]
fn batches_are_accounted_as_written_or_unprocessed() {
    let a = summarize_kept(vec![
        BatchResult::Written(output(vec![("books", vec![1, 2, 3])])),
        BatchResult::Written(output(vec![("books", (10..35).collect())])),
        BatchResult::Written(empty_output()),
    ]);
    assert_eq!(a.success_count() + a.unprocessed_count(), 3 * 25);
}

#[test]
fn first_failure_is_returned() {
    assert!(first_failure(vec![Ok(()), Ok(())]).is_ok());
    assert!(first_failure(vec![]).is_ok());
    let r = first_failure(vec![
        Ok(()),
        Err(Error::unhandled("first".to_string())),
        Err(Error::unhandled("second".to_string())),
    ]);
    match r {
        Err(Error::Unhandled(m)) => assert_eq!(m, "first"),
        Ok(()) => panic!("expected an error"),
    }
}

#[test]
fn unprocessed_request_count_of_replies() {
    assert_eq!(empty_output().unprocessed_request_count(), Some(0));
    assert_eq!(output(vec![("books", vec![1, 2]), ("other", vec![3])]).unprocessed_request_count(), Some(3));
    assert_eq!(BatchWriteOutput { unprocessed_items: Some(vec![]) }.unprocessed_request_count(), Some(0));
}

#[test]
fn any_calls_account_for_each_request_once() {
    let mut a = AggregateResult::new();
    a.add_success::<String>(Ok(output(vec![("books", vec![1, 2, 3])])));
    a.add_error(Error::unhandled("x".to_string()));
    a.add_success::<String>(Err("failed".to_string()));
    a.add_output_success(output(vec![("books", vec![4, 5])]));
    a.add_join_error("y".to_string());
    a.add_success::<String>(Ok(output(vec![("other", vec![6])])));
    a.record_retry_result::<()>(Ok(()));
    // two kept replies: a full batch each; one counted reply: 25 - 2 written
    assert_eq!(a.success_count() + a.unprocessed_count(), 25 + 25 + 23);
    assert_eq!(a.take_unprocessed_requests().len(), a.unprocessed_count());
}

#[test]
fn worker_replies_count_a_full_batch_each() {
    // A worker whose last chunk holds 2 ids: each clean reply still counts 25, a failed
    // request records its message, nothing is kept for retry.
    let a = aggregate_request_results(vec![
        Ok(empty_output()),
        Ok(output(vec![("books", vec![7])])),
        Err("throttled".to_string()),
        Ok(empty_output()),
    ]);
    assert_eq!(a.success_count(), 25 + 24 + 25);
    assert_eq!(a.unprocessed_count(), 0);
    assert_eq!(a.error_messages(), &vec!["throttled".to_string()]);
}
