use coordinator::config::{IndexerConfig, StartBlock, StreamInfo};
use coordinator::matching::take_block_stream;

fn job(account_id: &str, function_name: &str) -> IndexerConfig {
    IndexerConfig {
        account_id: account_id.to_string(),
        function_name: function_name.to_string(),
        created_at_block_height: 1,
        updated_at_block_height: None,
        start_block: StartBlock::Latest,
    }
}

fn stream(stream_id: &str, account_id: &str, function_name: &str, version: u64) -> StreamInfo {
    StreamInfo {
        stream_id: stream_id.to_string(),
        account_id: account_id.to_string(),
        function_name: function_name.to_string(),
        version,
    }
}

#[test]
fn takes_nothing_from_an_empty_list() {
    let mut active = vec![];
    assert_eq!(take_block_stream(&mut active, &job("morgs.near", "test")), None);
    assert!(active.is_empty());
}

#[test]
fn takes_nothing_when_no_stream_runs_the_job() {
    let mut active = vec![stream("a", "morgs.near", "other", 1), stream("b", "other.near", "test", 1)];
    let before = active.clone();
    assert_eq!(take_block_stream(&mut active, &job("morgs.near", "test")), None);
    assert_eq!(active, before);
}

#[test]
fn takes_the_stream_of_the_job() {
    let mut active = vec![stream("a", "morgs.near", "test", 7)];
    assert_eq!(
        take_block_stream(&mut active, &job("morgs.near", "test")),
        Some(stream("a", "morgs.near", "test", 7))
    );
    assert!(active.is_empty());
}

#[test]
fn last_stream_moves_into_the_gap() {
    let mut active = vec![
        stream("a", "x.near", "f", 1),
        stream("b", "morgs.near", "test", 2),
        stream("c", "y.near", "g", 3),
        stream("d", "z.near", "h", 4),
    ];
    assert_eq!(
        take_block_stream(&mut active, &job("morgs.near", "test")),
        Some(stream("b", "morgs.near", "test", 2))
    );
    assert_eq!(
        active,
        vec![stream("a", "x.near", "f", 1), stream("d", "z.near", "h", 4), stream("c", "y.near", "g", 3)]
    );
}

#[test]
fn takes_the_first_of_several() {
    let mut active = vec![
        stream("a", "morgs.near", "test", 1),
        stream("b", "morgs.near", "test", 2),
        stream("c", "x.near", "f", 3),
    ];
    assert_eq!(
        take_block_stream(&mut active, &job("morgs.near", "test")),
        Some(stream("a", "morgs.near", "test", 1))
    );
    assert_eq!(active, vec![stream("c", "x.near", "f", 3), stream("b", "morgs.near", "test", 2)]);
}

#[test]
fn account_and_function_must_both_agree() {
    let mut active = vec![stream("a", "morgs.near", "tes", 1), stream("b", "morgs.nea", "test", 1)];
    assert_eq!(take_block_stream(&mut active, &job("morgs.near", "test")), None);
    assert_eq!(active.len(), 2);
}
