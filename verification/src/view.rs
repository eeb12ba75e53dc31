use vstd::prelude::*;
use vstd::arithmetic::div_mod::*;
use vstd::arithmetic::mul::*;

verus! {

/// The range of MIDI notes shown on the pitch axis, both ends included.
#[derive(Debug, Clone, Copy, PartialEq, Eq)]
pub struct PitchView {
    pub min_midi_note: usize,
    pub max_midi_note: usize,
}

impl PitchView {
    /// How many notes the view shows; at least one, and saturating at the
    /// edges of `usize`.
    pub fn pitch_count(self) -> (count: usize)
        ensures
            count == if self.max_midi_note < self.min_midi_note {
                1
            } else if self.max_midi_note - self.min_midi_note == usize::MAX {
                usize::MAX as int
            } else {
                self.max_midi_note - self.min_midi_note + 1
            },
    {
        let difference = if self.max_midi_note >= self.min_midi_note {
            self.max_midi_note - self.min_midi_note
        } else {
            0
        };
        if difference == usize::MAX {
            usize::MAX
        } else {
            difference + 1
        }
    }
}

/// The first analysis frame that drawing column `column` of `columns` covers.
pub open spec fn column_start(column: int, columns: int, frames: int) -> int {
    column * frames / columns
}

/// The analysis frames that drawing column `column` of `columns` covers when
/// `frames` frames are spread over the columns.
pub fn column_frame_range(column: usize, columns: usize, frames: usize) -> (range: std::ops::Range<
    usize,
>)
    requires
        columns > 0,
        column < usize::MAX,
        (column + 1) * frames <= usize::MAX,
    ensures
        range.start == column_start(column as int, columns as int, frames as int),
        range.end == column_start(column + 1, columns as int, frames as int),
{
    proof {
        lemma_mul_inequality(column as int, column + 1, frames as int);
    }
    (column * frames / columns)..((column + 1) * frames / columns)
}

/// The column ranges tile the frames: the first starts at frame 0, each
/// starts where the one before ends, the last ends at the last frame, and no
/// range runs backwards. With at least as many frames as columns no range is
/// empty. So a pass over the columns visits every frame exactly once, in order.
pub proof fn lemma_columns_tile_the_frames(column: nat, columns: nat, frames: nat)
    requires
        columns > 0,
        column < columns,
    ensures
        column_start(0, columns as int, frames as int) == 0,
        column_start(columns as int, columns as int, frames as int) == frames,
        column_start(column as int, columns as int, frames as int) <= column_start(
            column as int + 1,
            columns as int,
            frames as int,
        ),
        frames >= columns ==> column_start(column as int, columns as int, frames as int)
            < column_start(column as int + 1, columns as int, frames as int),
{
    lemma_div_of0(columns as int);
    lemma_div_by_multiple(frames as int, columns as int);
    lemma_mul_is_commutative(columns as int, frames as int);
    lemma_mul_inequality(column as int, column as int + 1, frames as int);
    lemma_div_is_ordered((column * frames) as int, ((column + 1) * frames) as int, columns as int);
    if frames >= columns {
        lemma_mul_is_distributive_add_other_way(frames as int, column as int, 1);
        lemma_div_plus_one_by_at_least(column * frames, frames, columns);
    }
}

/// Adding at least `d` to a numerator raises its quotient by `d` by at least one.
proof fn lemma_div_plus_one_by_at_least(x: nat, step: nat, d: nat)
    requires
        d > 0,
        step >= d,
    ensures
        x / d < (x + step) / d,
{
    lemma_div_is_ordered((x + d) as int, (x + step) as int, d as int);
    lemma_div_plus_one(x as int, d as int);
}

/// What the timeline asks of the application after a frame.
#[derive(Debug, Clone, Copy, PartialEq, Eq, Default)]
pub struct TimelineActions {
    pub selection_changed: bool,
}

/// What the toolbar asks of the application after a frame.
#[derive(Debug, Clone, Copy, PartialEq, Eq, Default)]
pub struct ToolbarActions {
    pub open_requested: bool,
    pub save_requested: bool,
    pub undo_requested: bool,
    pub play_pause_requested: bool,
    pub seek_to_start_requested: bool,
    pub stop_requested: bool,
    pub clear_loop_range_requested: bool,
    pub comparison_enabled_changed: Option<bool>,
    pub mouse_input_changed: bool,
    pub reset_visualization_requested: bool,
}

/// Whether the global project undo shortcut acts: not while a text field
/// wants the keyboard, whose own undo comes first.
pub fn should_handle_project_undo(wants_keyboard_input: bool) -> (handle: bool)
    ensures
        handle == !wants_keyboard_input,
{
    !wants_keyboard_input
}


/// What one frame of the window brings to the decisions: the toolbar's
/// requests, the other widgets' requests, the shortcuts pressed and the state
/// that gates them.
#[derive(Debug, Clone, Copy, PartialEq, Eq, Default)]
pub struct FrameInput {
    pub actions: ToolbarActions,
    pub comparison_sequence_changed: bool,
    pub the_world_requested: bool,
    pub space_pressed: bool,
    pub save_shortcut_pressed: bool,
    pub undo_shortcut_pressed: bool,
    pub the_world_key_pressed: bool,
    pub wants_keyboard_input: bool,
    pub has_track: bool,
    pub playing: bool,
    pub the_world_active: bool,
}

/// What the play/pause request does to the transport.
#[derive(Debug, Clone, Copy, PartialEq, Eq)]
pub enum PlayPause {
    Unchanged,
    Pause,
    Play,
}

/// The work a frame hands to the player, the project and the file system,
/// in the order the fields are listed.
#[derive(Debug, Clone, Copy, PartialEq, Eq)]
pub struct FrameCommands {
    pub save_app_settings: bool,
    pub open_audio_file: bool,
    pub save_project: bool,
    pub undo_memo_edit: bool,
    pub clear_loop_range: bool,
    pub reset_visualization: bool,
    pub set_comparison_enabled: Option<bool>,
    pub apply_comparison_sequence: bool,
    pub seek_to_start: bool,
    pub play_pause: PlayPause,
    pub stop: bool,
    pub toggle_the_world: bool,
}

/// Whether the keyboard shortcuts reach the application: a focused text
/// field keeps them.
pub open spec fn shortcuts_reach_app(input: FrameInput) -> bool {
    !input.wants_keyboard_input
}

/// The decisions of one frame. While the world is stopped, edits that would
/// move the playhead or the project (undo, clearing the loop, toggling the
/// comparison, seeking to the start) are held back; the space and save
/// shortcuts act only once a track is loaded.
pub fn frame_commands(input: FrameInput) -> (commands: FrameCommands)
    ensures
        commands.save_app_settings == (input.actions.mouse_input_changed
            || input.comparison_sequence_changed),
        commands.open_audio_file == input.actions.open_requested,
        commands.save_project == (input.actions.save_requested || (input.save_shortcut_pressed
            && input.has_track)),
        commands.undo_memo_edit == (!input.the_world_active && (input.actions.undo_requested
            || (input.undo_shortcut_pressed && shortcuts_reach_app(input)))),
        commands.clear_loop_range == (input.actions.clear_loop_range_requested
            && !input.the_world_active),
        commands.reset_visualization == input.actions.reset_visualization_requested,
        commands.set_comparison_enabled == (if input.the_world_active {
            None
        } else {
            input.actions.comparison_enabled_changed
        }),
        commands.apply_comparison_sequence == input.comparison_sequence_changed,
        commands.seek_to_start == (input.actions.seek_to_start_requested
            && !input.the_world_active),
        commands.play_pause == (if input.actions.play_pause_requested || (input.space_pressed
            && input.has_track) {
            if input.playing {
                PlayPause::Pause
            } else {
                PlayPause::Play
            }
        } else {
            PlayPause::Unchanged
        }),
        commands.stop == input.actions.stop_requested,
        commands.toggle_the_world == (input.the_world_requested || (input.the_world_key_pressed
            && shortcuts_reach_app(input))),
{
    let actions = input.actions;
    let shortcuts = should_handle_project_undo(input.wants_keyboard_input);
    let play_pause_requested = actions.play_pause_requested || (input.space_pressed
        && input.has_track);
    let play_pause = if !play_pause_requested {
        PlayPause::Unchanged
    } else if input.playing {
        PlayPause::Pause
    } else {
        PlayPause::Play
    };
    let set_comparison_enabled = if input.the_world_active {
        None
    } else {
        actions.comparison_enabled_changed
    };
    FrameCommands {
        save_app_settings: actions.mouse_input_changed || input.comparison_sequence_changed,
        open_audio_file: actions.open_requested,
        save_project: actions.save_requested || (input.save_shortcut_pressed && input.has_track),
        undo_memo_edit: !input.the_world_active && (actions.undo_requested || (
        input.undo_shortcut_pressed && shortcuts)),
        clear_loop_range: actions.clear_loop_range_requested && !input.the_world_active,
        reset_visualization: actions.reset_visualization_requested,
        set_comparison_enabled,
        apply_comparison_sequence: input.comparison_sequence_changed,
        seek_to_start: actions.seek_to_start_requested && !input.the_world_active,
        play_pause,
        stop: actions.stop_requested,
        toggle_the_world: input.the_world_requested || (input.the_world_key_pressed && shortcuts),
    }
}

} // verus!
