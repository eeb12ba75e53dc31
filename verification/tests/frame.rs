use otomieru_boyer::view::{frame_commands, FrameInput, PlayPause, ToolbarActions};

fn loaded(playing: bool) -> FrameInput {
    FrameInput { has_track: true, playing, ..FrameInput::default() }
}

#[test]
fn an_idle_frame_asks_for_nothing() {
    let commands = frame_commands(loaded(false));
    assert!(!commands.save_app_settings);
    assert!(!commands.open_audio_file);
    assert!(!commands.save_project);
    assert!(!commands.undo_memo_edit);
    assert!(!commands.seek_to_start);
    assert!(!commands.stop);
    assert!(!commands.toggle_the_world);
    assert_eq!(commands.play_pause, PlayPause::Unchanged);
    assert_eq!(commands.set_comparison_enabled, None);
}

#[test]
fn space_toggles_playback_only_with_a_track() {
    let playing = FrameInput { space_pressed: true, ..loaded(true) };
    assert_eq!(frame_commands(playing).play_pause, PlayPause::Pause);
    let paused = FrameInput { space_pressed: true, ..loaded(false) };
    assert_eq!(frame_commands(paused).play_pause, PlayPause::Play);
    let empty = FrameInput { space_pressed: true, ..FrameInput::default() };
    assert_eq!(frame_commands(empty).play_pause, PlayPause::Unchanged);
    let button = FrameInput {
        actions: ToolbarActions { play_pause_requested: true, ..ToolbarActions::default() },
        ..FrameInput::default()
    };
    assert_eq!(frame_commands(button).play_pause, PlayPause::Play);
}

#[test]
fn the_save_shortcut_needs_a_track_but_the_menu_does_not() {
    let shortcut = FrameInput { save_shortcut_pressed: true, ..loaded(false) };
    assert!(frame_commands(shortcut).save_project);
    let no_track = FrameInput { save_shortcut_pressed: true, ..FrameInput::default() };
    assert!(!frame_commands(no_track).save_project);
    let menu = FrameInput {
        actions: ToolbarActions { save_requested: true, ..ToolbarActions::default() },
        ..FrameInput::default()
    };
    assert!(frame_commands(menu).save_project);
}

#[test]
fn a_stopped_world_holds_back_edits_that_move_the_playhead() {
    let input = FrameInput {
        actions: ToolbarActions {
            undo_requested: true,
            seek_to_start_requested: true,
            clear_loop_range_requested: true,
            comparison_enabled_changed: Some(true),
            stop_requested: true,
            ..ToolbarActions::default()
        },
        the_world_active: true,
        ..loaded(false)
    };
    let held = frame_commands(input);
    assert!(!held.undo_memo_edit);
    assert!(!held.seek_to_start);
    assert!(!held.clear_loop_range);
    assert_eq!(held.set_comparison_enabled, None);
    assert!(held.stop);

    let free = frame_commands(FrameInput { the_world_active: false, ..input });
    assert!(free.undo_memo_edit);
    assert!(free.seek_to_start);
    assert!(free.clear_loop_range);
    assert_eq!(free.set_comparison_enabled, Some(true));
}

#[test]
fn a_focused_text_field_keeps_the_keyboard_shortcuts() {
    let input = FrameInput {
        undo_shortcut_pressed: true,
        the_world_key_pressed: true,
        wants_keyboard_input: true,
        ..loaded(false)
    };
    let commands = frame_commands(input);
    assert!(!commands.undo_memo_edit);
    assert!(!commands.toggle_the_world);

    let unfocused = frame_commands(FrameInput { wants_keyboard_input: false, ..input });
    assert!(unfocused.undo_memo_edit);
    assert!(unfocused.toggle_the_world);
}

#[test]
fn editing_the_comparison_sequence_saves_and_applies_it() {
    let input = FrameInput { comparison_sequence_changed: true, ..loaded(false) };
    let commands = frame_commands(input);
    assert!(commands.save_app_settings);
    assert!(commands.apply_comparison_sequence);
}
