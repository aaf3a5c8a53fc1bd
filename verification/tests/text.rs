use wonnx_graph::text::signed_text;
#[test]
fn minimum_is_written_in_full() {
    assert_eq!(signed_text(i64::MIN), "-9223372036854775808");
}
