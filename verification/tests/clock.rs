use media_catalog::media_cache::current_timestamp;

#[test]
fn current_timestamp_is_after_2020() {
    assert!(current_timestamp() > 1_577_836_800);
}
