use linebuf::laws::flush_over_chunk_sink_delivers_all;
use linebuf::laws::flush_over_vec_sink_succeeds;
use linebuf::laws::flush_over_zero_sink_is_write_zero;

#[test]
fn law_cooperative_sink_flush_succeeds() {
    flush_over_vec_sink_succeeds();
}

#[test]
fn law_partial_sink_loses_nothing() {
    flush_over_chunk_sink_delivers_all();
}

#[test]
fn law_zero_sink_turns_flush_fatal() {
    flush_over_zero_sink_is_write_zero();
}

#[test]
fn law_three_elements_end_to_end() {
    linebuf::laws::three_elements_over_a_cooperative_sink();
}
