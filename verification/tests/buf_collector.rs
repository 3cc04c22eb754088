use delete_log::buf_collector::{
    BufAggregationCollector, RecordingCollector, DOC_BLOCK_SIZE,
};
use delete_log::DocId;

#[test]
fn staged_docs_go_downstream_in_blocks() {
    let mut buf = BufAggregationCollector::new(RecordingCollector::new());
    for doc in 0..(DOC_BLOCK_SIZE as DocId - 1) {
        buf.collect(doc).unwrap();
    }
    // One short of a block: nothing handed downstream yet.
    assert!(buf.collector().docs().is_empty());
    buf.collect(DOC_BLOCK_SIZE as DocId - 1).unwrap();
    // The block filled up and went downstream, in acceptance order.
    assert_eq!(
        *buf.collector().docs(),
        (0..DOC_BLOCK_SIZE as DocId).collect::<Vec<DocId>>()
    );
}

#[test]
fn flush_drains_the_partial_block() {
    let mut buf = BufAggregationCollector::new(RecordingCollector::new());
    buf.collect(7).unwrap();
    buf.collect(8).unwrap();
    buf.collect(9).unwrap();
    assert!(buf.collector().docs().is_empty());
    buf.flush().unwrap();
    assert_eq!(*buf.collector().docs(), vec![7, 8, 9]);
}

#[test]
fn collect_block_bypasses_staging() {
    let mut buf = BufAggregationCollector::new(RecordingCollector::new());
    buf.collect(1).unwrap();
    buf.collect(2).unwrap();
    buf.collect_block(&[100, 101]).unwrap();
    // The block went straight down; the staged ids stayed staged.
    assert_eq!(*buf.collector().docs(), vec![100, 101]);
    buf.flush().unwrap();
    assert_eq!(*buf.collector().docs(), vec![100, 101, 1, 2]);
}
