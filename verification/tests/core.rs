use kazoo_core::{midi_note_name, TimePosition, DEFAULT_SAMPLE_RATE};

#[test]
fn time_position_format_time() {
    let tp = TimePosition::new(44_100 * 65, 44_100); // 1 min 5 sec
    let formatted = tp.format_time();
    assert_eq!(formatted, "01:05.000");
}

#[test]
fn time_position_zero_fields() {
    let tp = TimePosition::zero();
    assert_eq!(tp.samples, 0);
    assert_eq!(tp.sample_rate, DEFAULT_SAMPLE_RATE);
    assert_eq!(tp.format_time(), "00:00.000");
}

#[test]
fn time_position_zero_rate_counts_as_one() {
    let tp = TimePosition::new(100, 0);
    assert_eq!(tp.sample_rate, 1);
    assert_eq!(tp.format_time(), "01:40.000");
}

#[test]
fn time_position_rounds_milliseconds() {
    // 1 sample at 3 Hz is 333.33 ms; 2 samples are 666.67 ms.
    assert_eq!(TimePosition::new(1, 3).format_time(), "00:00.333");
    assert_eq!(TimePosition::new(2, 3).format_time(), "00:00.667");
    // 150 minutes do not wrap the minute field.
    assert_eq!(TimePosition::new(150 * 60, 1).format_time(), "150:00.000");
}

#[test]
fn time_position_rounding_carries_into_minutes() {
    // 59.99998 s rounds to a whole minute, never to a 60th second.
    assert_eq!(TimePosition::new(2_645_999, 44_100).format_time(), "01:00.000");
    assert_eq!(TimePosition::new(2_645_977, 44_100).format_time(), "00:59.999");
}

#[test]
fn time_position_exact_halves_round_to_even() {
    // 1/16 s and 3/16 s are exact halves of a millisecond.
    assert_eq!(format!("{:06.3}", 1.0_f64 / 16.0), "00.062");
    assert_eq!(format!("{:06.3}", 3.0_f64 / 16.0), "00.188");
    assert_eq!(TimePosition::new(1, 16).format_time(), "00:00.062");
    assert_eq!(TimePosition::new(3, 16).format_time(), "00:00.188");
    assert_eq!(TimePosition::new(5, 16).format_time(), "00:00.312");
}

#[test]
fn midi_note_name_a4() {
    assert_eq!(midi_note_name(69), "A4");
}

#[test]
fn midi_note_name_middle_c() {
    assert_eq!(midi_note_name(60), "C4");
}

#[test]
fn midi_note_name_c0() {
    // MIDI note 12 = C0 (octave = 12/12 - 1 = 0)
    assert_eq!(midi_note_name(12), "C0");
}

#[test]
fn midi_note_name_c_minus_1() {
    // MIDI note 0 = C-1 (octave = 0/12 - 1 = -1)
    assert_eq!(midi_note_name(0), "C-1");
}

#[test]
fn midi_note_name_b_minus_1() {
    // MIDI note 11 = B-1
    assert_eq!(midi_note_name(11), "B-1");
}

#[test]
fn midi_note_name_sharps_and_top_of_range() {
    assert_eq!(midi_note_name(61), "C#4");
    assert_eq!(midi_note_name(127), "G9");
    assert_eq!(midi_note_name(255), "D#20");
}
