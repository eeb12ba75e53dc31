use otomieru_boyer::text::{decimal_string, format_pitch_label};
use otomieru_boyer::view::{column_frame_range, should_handle_project_undo, PitchView};

#[test]
fn project_undo_defers_to_focused_text_input() {
    assert!(!should_handle_project_undo(true));
    assert!(should_handle_project_undo(false));
}

#[test]
fn decimal_text_has_no_leading_zeros() {
    assert_eq!(decimal_string(0), "0");
    assert_eq!(decimal_string(907), "907");
    assert_eq!(decimal_string(u128::MAX), u128::MAX.to_string());
}

#[test]
fn pitch_labels_carry_their_sign() {
    assert_eq!(format_pitch_label(0), "0 st");
    assert_eq!(format_pitch_label(3), "+3 st");
    assert_eq!(format_pitch_label(-5), "-5 st");
    assert_eq!(format_pitch_label(12), "+1 oct");
    assert_eq!(format_pitch_label(-12), "-1 oct");
}

#[test]
fn columns_tile_the_frames_without_gaps() {
    let columns = 3;
    let frames = 10;
    let mut next = 0;
    for column in 0..columns {
        let range = column_frame_range(column, columns, frames);
        assert_eq!(range.start, next);
        next = range.end;
    }
    assert_eq!(next, frames);
}

#[test]
fn pitch_view_counts_both_ends() {
    let view = PitchView { min_midi_note: 24, max_midi_note: 108 };
    assert_eq!(view.pitch_count(), 85);
}
