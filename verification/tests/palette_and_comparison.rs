use otomieru_boyer::comparison::{
    comparison_phase_at, default_comparison_sequence, is_valid_comparison_sequence,
    ComparisonPhase,
};
use otomieru_boyer::comparison_control::ComparisonAudioControl;
use otomieru_boyer::comparison::ComparisonPhase::{Mix, Notes, Original};
use otomieru_boyer::tool_palette::ToolPaletteItem::{Equalizer, Layers, LoopSequencer, Timbre};
use otomieru_boyer::tool_palette::{
    default_tool_palette_items, normalized_tool_palette_order, ordered_visible_tools,
    ToolPaletteItem,
};

#[test]
fn visible_tools_follow_the_master_palette_order() {

    let order = [LoopSequencer, Equalizer, Timbre];
    let visible = [Equalizer, LoopSequencer];

    assert_eq!(
        ordered_visible_tools(&order, &visible),
        [LoopSequencer, Equalizer]
    );
}

#[test]
fn an_old_visible_order_becomes_the_start_of_the_master_palette_order() {

    let order = normalized_tool_palette_order(&[], &[Timbre, Equalizer]);

    assert_eq!(&order[..2], &[Timbre, Equalizer]);
    assert_eq!(order.len(), ToolPaletteItem::all().len());
}

#[test]
fn a_normalized_order_holds_every_tool_once() {
    let order = normalized_tool_palette_order(&[Layers, Layers, Equalizer], &[]);
    assert_eq!(&order[..2], &[Layers, Equalizer]);
    for tool in ToolPaletteItem::all() {
        assert_eq!(order.iter().filter(|item| **item == tool).count(), 1);
    }
    assert_eq!(default_tool_palette_items(), ToolPaletteItem::all());
}

#[test]
fn control_advances_through_the_configured_sequence() {
    let mut control = ComparisonAudioControl::default();
    assert_eq!(control.snapshot().phase, None);

    control.enable_from_start();
    assert_eq!(control.snapshot().phase, Some(ComparisonPhase::Original));
    control.advance();
    assert_eq!(control.snapshot().phase, Some(ComparisonPhase::Notes));
    control.advance();
    assert_eq!(control.snapshot().phase, Some(ComparisonPhase::Mix));
    control.advance();
    assert_eq!(control.snapshot().phase, Some(ComparisonPhase::Original));
}

#[test]
fn changing_the_sequence_restarts_an_enabled_control() {

    let mut control = ComparisonAudioControl::default();
    control.enable_from_start();
    control.advance();
    control.set_sequence(&[Mix, Mix, Notes]);

    assert_eq!(control.snapshot().sequence_index, Some(0));
    assert_eq!(control.snapshot().phase, Some(Mix));
    control.advance();
    assert_eq!(control.snapshot().phase, Some(Mix));
    control.advance();
    assert_eq!(control.snapshot().phase, Some(Notes));
}

#[test]
fn reset_and_disable_preserve_the_expected_lifecycle() {
    let mut control = ComparisonAudioControl::default();
    control.enable_from_start();
    control.advance();
    control.reset_to_start_if_enabled();
    assert_eq!(control.snapshot().phase, Some(ComparisonPhase::Original));

    control.disable();
    control.reset_to_start_if_enabled();
    assert_eq!(control.snapshot().phase, None);
}

#[test]
fn routing_uses_comparison_phase_without_changing_user_mutes() {
    let mut control = ComparisonAudioControl::default();
    assert!(!control.snapshot().source_is_audible(true));
    assert!(control.snapshot().memos_are_audible());

    control.enable_from_start();
    let original = control.snapshot();
    assert!(original.source_is_audible(true));
    assert!(!original.memos_are_audible());

    control.advance();
    let notes = control.snapshot();
    assert!(!notes.source_is_audible(false));
    assert!(notes.memos_are_audible());

    control.advance();
    let mix = control.snapshot();
    assert!(mix.source_is_audible(true));
    assert!(mix.memos_are_audible());
}

#[test]
fn the_loop_repeats_after_its_last_step() {
    let mut control = ComparisonAudioControl::default();
    control.set_sequence(&[Notes, Original]);
    control.enable_from_start();
    for step in 0..9 {
        let expected = if step % 2 == 0 { Notes } else { Original };
        assert_eq!(control.snapshot().phase, Some(expected));
        assert_eq!(control.snapshot().sequence_index, Some(step % 2));
        control.advance();
    }
}

#[test]
fn default_sequence_repeats_original_notes_and_mix() {

    let sequence = default_comparison_sequence();
    let phases = (0..7)
        .map(|index| comparison_phase_at(&sequence, index).unwrap())
        .collect::<Vec<_>>();

    assert_eq!(
        phases,
        [Original, Notes, Mix, Original, Notes, Mix, Original]
    );
}

#[test]
fn repeated_steps_do_not_require_fixed_phase_transitions() {
    let sequence = [Original, Original, Notes, Notes, Mix, Mix];

    let phases = (0..sequence.len())
        .map(|index| comparison_phase_at(&sequence, index).unwrap())
        .collect::<Vec<_>>();

    assert_eq!(phases, sequence);
}

#[test]
fn empty_sequence_has_no_phase() {
    assert_eq!(comparison_phase_at(&[], 0), None);
}

#[test]
fn sequences_hold_one_to_ten_steps() {
    assert!(!is_valid_comparison_sequence(&[]));
    assert!(is_valid_comparison_sequence(&[Mix; 10]));
    assert!(!is_valid_comparison_sequence(&[Mix; 11]));
    assert_eq!(ComparisonPhase::Original.label().is_empty(), false);
}
