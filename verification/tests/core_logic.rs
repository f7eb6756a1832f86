use aws_sdk_dynamodb::types::AttributeValue;
use dynamodb_client::command::{parse_arguments, parse_command, Command, DEFAULT_ITEM_COUNT};
use dynamodb_client::decimal::{decimal_string, parse_usize};
use dynamodb_client::delete::{item_key, page_deletions, ScannedItem};
use dynamodb_client::error::Error;
use dynamodb_client::plan::{item_chunks, range_chunks, worker_assignments};
use dynamodb_client::report::{benchmark_header, benchmark_record, performance_runs, record_label};
use dynamodb_client::request::{
    chunk_requests, create_write_request, series_key, sort_key, table_name, AttrValue, ItemWrite,
};
use dynamodb_client::sequential::RequestBatcher;

fn ids(lo: usize, hi: usize) -> Vec<usize> {
    (lo..hi).collect()
}

fn put_item_key(r: &ItemWrite) -> (String, String) {
    assert!(r.delete_key.is_none());
    let attrs = r.put_item.as_ref().expect("a put");
    assert_eq!(attrs.len(), 2);
    let value = |i: usize, name: &str| match &attrs[i] {
        (n, AttrValue::S(s)) if n == name => s.clone(),
        _ => panic!("unexpected attribute {}", i),
    };
    (value(0, "id"), value(1, "sort"))
}

#[test]
fn unhandled_error_keeps_its_source_message() {
    let e = Error::unhandled("item id not found".to_string());
    assert_eq!(e.source_message(), "item id not found");
    assert_eq!(e.display_text(), "unhandled error");
    match e {
        Error::Unhandled(m) => assert_eq!(m, "item id not found"),
    }
}

#[test]
fn decimal_text_of_numbers() {
    assert_eq!(decimal_string(0), "0");
    assert_eq!(decimal_string(7), "7");
    assert_eq!(decimal_string(10), "10");
    assert_eq!(decimal_string(12345), "12345");
    assert_eq!(decimal_string(u128::MAX), u128::MAX.to_string());
}

#[test]
fn parse_usize_accepts_what_str_parse_accepts() {
    assert_eq!(parse_usize("42"), Some(42));
    assert_eq!(parse_usize("+7"), Some(7));
    assert_eq!(parse_usize("007"), Some(7));
    assert_eq!(parse_usize(&usize::MAX.to_string()), Some(usize::MAX));
    for bad in ["", "+", "-1", "12a", " 1", "1.5", "++1"] {
        assert_eq!(parse_usize(bad), None, "{:?}", bad);
        assert!(bad.parse::<usize>().is_err());
    }
    let too_big = format!("{}0", usize::MAX);
    assert_eq!(parse_usize(&too_big), None);
    for good in ["0", "+0", "100", "500", "1000"] {
        assert_eq!(parse_usize(good), good.parse::<usize>().ok());
    }
}

#[test]
fn parsed_decimal_round_trips() {
    for n in [0usize, 1, 9, 10, 99, 100, 1000, 123456789, usize::MAX] {
        assert_eq!(parse_usize(&decimal_string(n as u128)), Some(n));
    }
}

#[test]
fn write_request_puts_the_item_key() {
    let r = create_write_request("7".to_string(), "SortKeyValue".to_string());
    assert_eq!(put_item_key(&r), ("7".to_string(), "SortKeyValue".to_string()));
    let r = create_write_request("a".to_string(), "b".to_string());
    assert_eq!(put_item_key(&r), ("a".to_string(), "b".to_string()));
}

#[test]
fn chunk_requests_follow_the_chunk() {
    let rs = chunk_requests(&vec![3, 10, 24]);
    let keys: Vec<(String, String)> = rs.iter().map(put_item_key).collect();
    assert_eq!(
        keys,
        vec![
            ("3".to_string(), "SortKeyValue".to_string()),
            ("10".to_string(), "SortKeyValue".to_string()),
            ("24".to_string(), "SortKeyValue".to_string()),
        ]
    );
    assert!(chunk_requests(&vec![]).is_empty());
}

#[test]
fn names_and_keys() {
    assert_eq!(table_name(), "books");
    assert_eq!(sort_key(), "SortKeyValue");
    assert_eq!(series_key(), ("PrimaryKeyValue".to_string(), "SortKeyValue".to_string()));
}

#[test]
fn item_chunks_cut_in_batches_of_25() {
    assert_eq!(item_chunks(100), vec![ids(0, 25), ids(25, 50), ids(50, 75), ids(75, 100)]);
    assert_eq!(item_chunks(60), vec![ids(0, 25), ids(25, 50), ids(50, 60)]);
    assert_eq!(item_chunks(25), vec![ids(0, 25)]);
    assert_eq!(item_chunks(1), vec![ids(0, 1)]);
    assert!(item_chunks(0).is_empty());
    let expected: Vec<Vec<usize>> = ids(0, 1000).chunks(25).map(|c| c.to_vec()).collect();
    assert_eq!(item_chunks(1000), expected);
}

#[test]
fn range_chunks_of_other_sizes() {
    assert_eq!(range_chunks(5, 12, 3), vec![ids(5, 8), ids(8, 11), ids(11, 12)]);
    assert!(range_chunks(4, 4, 3).is_empty());
}

#[test]
fn worker_assignments_share_the_items() {
    let w = worker_assignments(60);
    assert_eq!(w, vec![vec![ids(0, 25), ids(25, 30)], vec![ids(30, 55), ids(55, 60)]]);
    let w = worker_assignments(100);
    assert_eq!(w.len(), 4);
    for (i, chunks) in w.iter().enumerate() {
        assert_eq!(chunks, &vec![ids(25 * i, 25 * i + 25)]);
    }
    // 110 items: 4 workers of 27; the last one also takes ids 108 and 109.
    let w = worker_assignments(110);
    assert_eq!(w.len(), 4);
    assert_eq!(w[2], vec![ids(54, 79), ids(79, 81)]);
    assert_eq!(w[3], vec![ids(81, 106), ids(106, 110)]);
    for n in [25usize, 49, 60, 99, 110, 1000, 1013] {
        let all: Vec<usize> = worker_assignments(n).into_iter().flatten().flatten().collect();
        assert_eq!(all, ids(0, n), "{}", n);
    }
    assert_eq!(worker_assignments(25), vec![vec![ids(0, 25)]]);
}

#[test]
fn batcher_sends_full_batches_only() {
    let mut b = RequestBatcher::new();
    let mut sent: Vec<Vec<ItemWrite>> = Vec::new();
    for i in 0..60 {
        let r = create_write_request(i.to_string(), "SortKeyValue".to_string());
        if let Some(batch) = b.push(r) {
            sent.push(batch);
        }
    }
    assert_eq!(sent.len(), 2);
    assert!(sent.iter().all(|s| s.len() == 25));
    assert_eq!(b.pending().len(), 10);
    assert_eq!(put_item_key(&sent[1][0]).0, "25");
    assert_eq!(put_item_key(&b.pending()[0]).0, "50");
    let last = b.finish().expect("a last batch");
    assert_eq!(last.len(), 10);
    assert_eq!(put_item_key(&last[9]).0, "59");
}

#[test]
fn batcher_with_hundred_items_leaves_nothing() {
    let mut b = RequestBatcher::new();
    let mut batches = 0;
    for i in 0..100 {
        if b.push(create_write_request(i.to_string(), "SortKeyValue".to_string())).is_some() {
            batches += 1;
        }
    }
    assert_eq!(batches, 4);
    assert!(b.pending().is_empty());
    assert!(b.finish().is_none());
}

fn item(attrs: Vec<(&str, AttrValue)>) -> ScannedItem {
    ScannedItem { attributes: attrs.into_iter().map(|(n, v)| (n.to_string(), v)).collect() }
}

fn key_error(r: Result<(String, String), Error>) -> String {
    match r {
        Err(Error::Unhandled(m)) => m,
        Ok(k) => panic!("unexpected key {:?}", k),
    }
}

#[test]
fn item_key_reads_id_and_sort() {
    let it = item(vec![("sort", AttrValue::S("s".to_string())), ("id", AttrValue::S("1".to_string()))]);
    assert_eq!(item_key(&it).unwrap(), ("1".to_string(), "s".to_string()));
}

#[test]
fn item_key_errors() {
    assert_eq!(key_error(item_key(&item(vec![]))), "item id not found");
    assert_eq!(key_error(item_key(&item(vec![("id", AttrValue::Other(AttributeValue::N("1".to_string())))]))), "id attr error");
    assert_eq!(
        key_error(item_key(&item(vec![("id", AttrValue::S("1".to_string()))]))),
        "item sort not found"
    );
    assert_eq!(
        key_error(item_key(&item(vec![("id", AttrValue::S("1".to_string())), ("sort", AttrValue::Other(AttributeValue::N("1".to_string())))]))),
        "sort attr error"
    );
    // id is looked at first
    assert_eq!(key_error(item_key(&item(vec![("sort", AttrValue::Other(AttributeValue::N("1".to_string())))]))), "item id not found");
}

fn args(v: &[&str]) -> Vec<String> {
    v.iter().map(|s| s.to_string()).collect()
}

#[test]
fn arguments_select_command_and_count() {
    let i = parse_arguments(&args(&["prog", "channel", "500"]));
    assert_eq!(i.command, Some(Command::Channel));
    assert_eq!(i.item_count, 500);
    let i = parse_arguments(&args(&["prog", "delete"]));
    assert_eq!(i.command, Some(Command::Delete));
    assert_eq!(i.item_count, DEFAULT_ITEM_COUNT);
    assert_eq!(DEFAULT_ITEM_COUNT, 100);
    let i = parse_arguments(&args(&["prog", "parallel_performance", "1000"]));
    assert_eq!(i.command, Some(Command::ParallelPerformance));
    assert_eq!(i.item_count, 1000);
    let i = parse_arguments(&args(&["prog", "batch", "many"]));
    assert_eq!(i.command, Some(Command::Batch));
    assert_eq!(i.item_count, 100);
    let i = parse_arguments(&args(&["prog"]));
    assert_eq!(i.command, None);
    let i = parse_arguments(&args(&["prog", "series"]));
    assert_eq!(i.command, None);
}

#[test]
fn every_command_name() {
    let names = [
        ("scan", Command::Scan),
        ("count", Command::Count),
        ("batch", Command::Batch),
        ("series_put", Command::SeriesPut),
        ("series_get", Command::SeriesGet),
        ("delete", Command::Delete),
        ("channel", Command::Channel),
        ("fork_join", Command::ForkJoin),
        ("map_reduce", Command::MapReduce),
        ("pipeline", Command::Pipeline),
        ("parallel_loop", Command::ParallelLoop),
        ("worker", Command::Worker),
        ("parallel_performance", Command::ParallelPerformance),
    ];
    for (n, c) in names {
        assert_eq!(parse_command(&n.to_string()), Some(c));
    }
    assert_eq!(parse_command(&"Scan".to_string()), None);
    assert_eq!(parse_command(&"".to_string()), None);
}

#[test]
fn performance_runs_each_way_ten_times() {
    let runs = performance_runs(10);
    assert_eq!(runs.len(), 70);
    let order = [
        Command::Batch,
        Command::Channel,
        Command::ForkJoin,
        Command::MapReduce,
        Command::Pipeline,
        Command::ParallelLoop,
        Command::Worker,
    ];
    for (i, c) in runs.iter().enumerate() {
        assert_eq!(*c, order[i / 10]);
    }
    assert!(performance_runs(0).is_empty());
}

#[test]
fn labels_and_records() {
    assert_eq!(record_label(Command::Batch), Some("Batch sequential processing"));
    assert_eq!(record_label(Command::Channel), Some("Channel parallel processing"));
    assert_eq!(record_label(Command::MapReduce), Some("Map reduce parallel processing"));
    assert_eq!(record_label(Command::ParallelLoop), Some("Parallel loop processing"));
    assert_eq!(record_label(Command::Worker), Some("Worker/Master pattern processing"));
    assert_eq!(record_label(Command::ForkJoin), None);
    assert_eq!(record_label(Command::Pipeline), None);
    assert_eq!(
        benchmark_record("Batch sequential processing", 1000, 619),
        vec!["Batch sequential processing".to_string(), "1000".to_string(), "619".to_string()]
    );
    assert_eq!(benchmark_header(), vec!["process".to_string(), "item count".to_string(), "execution time".to_string()]);
}

#[test]
fn page_deletions_stop_at_the_first_bad_item() {
    let good = |i: &str| item(vec![("id", AttrValue::S(i.to_string())), ("sort", AttrValue::S("s".to_string()))]);
    let page = vec![good("1"), good("2"), item(vec![("sort", AttrValue::S("s".to_string()))]), good("4")];
    let d = page_deletions(&page, true);
    assert_eq!(d.keys, vec![("1".to_string(), "s".to_string()), ("2".to_string(), "s".to_string())]);
    assert_eq!(key_error(Err(d.failure.expect("a failure"))), "item id not found");
    assert!(!d.scan_next_page);
    let d = page_deletions(&vec![good("1")], true);
    assert_eq!(d.keys.len(), 1);
    assert!(d.failure.is_none());
    assert!(d.scan_next_page);
    let d = page_deletions(&vec![], false);
    assert!(d.keys.is_empty() && d.failure.is_none() && !d.scan_next_page);
}
