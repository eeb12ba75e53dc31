use otomieru_boyer::project::{
    FundamentalAnalysisSettings, PitchMemo, PitchMemoLayer, ProjectData, ProjectState,
    DEFAULT_LAYER_OPACITY_BITS, DEFAULT_LAYER_VOLUME_BITS, FIXED_LAYER_COUNT,
};
use otomieru_boyer::project_ids::{LayerId, MemoId, ScalePreset, SelectedMemo};

fn seconds(value: f64) -> u64 {
    value.to_bits()
}

#[test]
fn a_new_project_has_six_clean_named_layers() {
    let project = ProjectState::new();

    assert_eq!(project.data.layers.len(), FIXED_LAYER_COUNT);
    for (index, layer) in project.data.layers.iter().enumerate() {
        assert_eq!(layer.id.get(), index as u64 + 1);
        assert_eq!(layer.name, format!("Layer {}", index + 1));
    }
    assert_eq!(project.data.layers[0].volume_bits, DEFAULT_LAYER_VOLUME_BITS);
    assert_eq!(project.data.layers[0].opacity_bits, DEFAULT_LAYER_OPACITY_BITS);
    assert_eq!(
        project.editing.selected_layer_id,
        Some(project.data.layers[0].id)
    );
    assert!(!project.editing.dirty);
}

#[test]
fn loaded_projects_are_completed_to_six_layers_without_reusing_memo_ids() {
    let layer_id = LayerId::new(4).unwrap();
    let memo_id = MemoId::new(9).unwrap();
    let data = ProjectData {
        layers: vec![PitchMemoLayer {
            id: layer_id,
            name: "Bass".to_owned(),
            visible: true,
            muted: false,
            volume_bits: 0.7f32.to_bits(),
            opacity_bits: 0.6f32.to_bits(),
            memos: vec![PitchMemo {
                id: memo_id,
                start_sec_bits: seconds(1.0),
                duration_sec_bits: seconds(0.5),
                pitch_midi: 40,
            }],
        }],
        ..ProjectData::default()
    };
    let mut project = ProjectState::from_data(data);

    let new_memo_id = project.add_memo(layer_id, seconds(2.0), seconds(0.5), 52).unwrap();

    assert_eq!(project.data.layers.len(), FIXED_LAYER_COUNT);
    assert_eq!(project.data.layers[0].id, LayerId::new(1).unwrap());
    assert_eq!(project.data.layers[3].id, layer_id);
    assert_eq!(new_memo_id.get(), 10);
    assert!(project.editing.dirty);
}

#[test]
fn a_fixed_project_cannot_add_a_seventh_layer() {
    let mut project = ProjectState::new();

    assert_eq!(project.add_layer("Layer 7".to_owned()), None);
}

#[test]
fn bulk_layer_settings_apply_the_same_value_to_every_layer() {
    let mut project = ProjectState::new();
    project.data.layers[1].visible = false;
    project.data.layers[2].muted = true;
    project.data.layers[3].volume_bits = 0.2f32.to_bits();

    assert!(project.set_all_layers_visible(true));
    assert!(project.set_all_layers_muted(false));
    assert!(project.set_all_layers_volume(0.35f32.to_bits()));
    assert!(project.set_all_layers_opacity(0.45f32.to_bits()));
    assert!(project.data.layers.iter().all(|layer| layer.visible));
    assert!(project.data.layers.iter().all(|layer| !layer.muted));
    assert!(project
        .data
        .layers
        .iter()
        .all(|layer| f32::from_bits(layer.volume_bits) == 0.35));
    assert!(project
        .data
        .layers
        .iter()
        .all(|layer| f32::from_bits(layer.opacity_bits) == 0.45));
    assert!(!project.editing.dirty);
}

#[test]
fn loading_a_project_resets_runtime_layer_settings() {
    let mut data = ProjectState::new().data;
    let layer = &mut data.layers[0];
    layer.visible = false;
    layer.muted = true;
    layer.volume_bits = 0.2f32.to_bits();
    layer.opacity_bits = 0.3f32.to_bits();

    let project = ProjectState::from_data(data);
    let layer = &project.data.layers[0];

    assert!(layer.visible);
    assert!(!layer.muted);
    assert_eq!(layer.volume_bits, DEFAULT_LAYER_VOLUME_BITS);
    assert_eq!(layer.opacity_bits, DEFAULT_LAYER_OPACITY_BITS);
}

#[test]
fn memos_can_be_placed_in_each_fixed_layer() {
    let mut project = ProjectState::new();
    let layer_ids: Vec<_> = project.data.layers.iter().map(|layer| layer.id).collect();

    for (index, layer_id) in layer_ids.iter().copied().enumerate() {
        project.editing.selected_layer_id = Some(layer_id);
        let memo_id = project
            .add_memo(layer_id, seconds(index as f64), seconds(0.5), 60 + index as i32)
            .unwrap();
        assert_eq!(project.editing.selected_layer_id, Some(layer_id));
        assert_eq!(
            project
                .memo(SelectedMemo { layer_id, memo_id })
                .unwrap()
                .pitch_midi,
            60 + index as i32
        );
    }

    assert!(project
        .data
        .layers
        .iter()
        .all(|layer| layer.memos.len() == 1));
}

#[test]
fn adding_a_memo_to_an_unknown_layer_does_not_consume_an_id() {
    let mut project = ProjectState::new();
    let missing_layer = LayerId::new(99).unwrap();

    assert_eq!(project.add_memo(missing_layer, seconds(0.0), seconds(0.5), 60), None);
    let layer_id = project.editing.selected_layer_id.unwrap();
    assert_eq!(
        project
            .add_memo(layer_id, seconds(0.0), seconds(0.5), 60)
            .unwrap()
            .get(),
        1
    );
}

#[test]
fn scale_preset_updates_the_emphasized_pitch_classes() {
    let mut settings = ProjectData::default().project_settings.fundamental_analysis;
    settings.scale_root = 2;
    settings.scale_preset = ScalePreset::Major;

    settings.apply_scale_preset();

    assert_eq!(
        settings.emphasized_pitch_classes,
        [false, true, true, false, true, false, true, true, false, true, false, true]
    );
}

#[test]
fn memo_create_delete_and_update_are_undoable() {
    let mut project = ProjectState::new();
    let layer_id = project.editing.selected_layer_id.unwrap();
    let memo_id = project.add_memo(layer_id, seconds(1.0), seconds(0.5), 60).unwrap();
    let selected = SelectedMemo { layer_id, memo_id };

    assert!(project.update_memo(selected, seconds(1.25), seconds(0.75), 61));
    assert!(project.undo());
    assert_eq!(f64::from_bits(project.memo(selected).unwrap().start_sec_bits), 1.0);
    assert_eq!(f64::from_bits(project.memo(selected).unwrap().duration_sec_bits), 0.5);
    assert_eq!(project.memo(selected).unwrap().pitch_midi, 60);

    assert!(project.delete_memo(selected));
    assert!(project.memo(selected).is_none());
    assert!(project.undo());
    assert!(project.memo(selected).is_some());

    assert!(project.undo());
    assert!(project.memo(selected).is_none());
    assert!(!project.can_undo());
    assert!(!project.editing.dirty);
}

#[test]
fn undo_after_saving_marks_the_project_dirty_again() {
    let mut project = ProjectState::new();
    let layer_id = project.editing.selected_layer_id.unwrap();
    project.add_memo(layer_id, seconds(1.0), seconds(0.5), 60).unwrap();
    project.mark_saved();

    assert!(project.undo());

    assert!(project.editing.dirty);
}

#[test]
fn an_update_that_changes_nothing_is_not_recorded() {
    let mut project = ProjectState::new();
    let layer_id = project.editing.selected_layer_id.unwrap();
    let memo_id = project.add_memo(layer_id, seconds(0.0), seconds(0.5), 60).unwrap();
    let selected = SelectedMemo { layer_id, memo_id };
    assert!(!project.update_memo(selected, seconds(0.0), seconds(0.5), 60));
    assert!(!project.update_memo(selected, seconds(-0.0), seconds(0.5), 60));
    assert!(project.undo());
    assert!(!project.can_undo());
    assert!(!project.undo());
}

#[test]
fn a_saved_project_with_a_nan_memo_stays_dirty() {
    let mut project = ProjectState::new();
    let layer_id = project.editing.selected_layer_id.unwrap();
    project.add_memo(layer_id, f64::NAN.to_bits(), seconds(0.5), 60).unwrap();
    project.mark_saved();
    assert!(project.editing.dirty);
}

#[test]
fn deleting_a_missing_memo_changes_nothing() {
    let mut project = ProjectState::new();
    let layer_id = project.editing.selected_layer_id.unwrap();
    let selected = SelectedMemo { layer_id, memo_id: MemoId::new(5).unwrap() };
    assert!(!project.delete_memo(selected));
    assert!(!project.can_undo());
}

#[test]
fn loaded_layers_are_ordered_by_identifier() {
    let layer = |id: u64, name: &str| PitchMemoLayer {
        id: LayerId::new(id).unwrap(),
        name: name.to_owned(),
        visible: true,
        muted: false,
        volume_bits: DEFAULT_LAYER_VOLUME_BITS,
        opacity_bits: DEFAULT_LAYER_OPACITY_BITS,
        memos: Vec::new(),
    };
    let data = ProjectData {
        layers: vec![layer(9, "late"), layer(3, "three"), layer(3, "again")],
        ..ProjectData::default()
    };
    let project = ProjectState::from_data(data);
    let ids: Vec<u64> = project.data.layers.iter().map(|layer| layer.id.get()).collect();
    assert_eq!(ids, vec![1, 2, 3, 3, 4, 9]);
    assert_eq!(project.data.layers[2].name, "three");
    assert_eq!(project.data.layers[3].name, "again");
    let mut project = project;
    assert_eq!(project.add_layer("extra".to_owned()), None);
    project.data.layers.pop();
    assert_eq!(project.add_layer("extra".to_owned()).map(|id| id.get()), Some(10));
}

#[test]
fn default_analysis_marks_c_major() {
    let settings = FundamentalAnalysisSettings::default();
    assert_eq!(
        settings.emphasized_pitch_classes,
        [true, false, true, false, true, true, false, true, false, true, false, true]
    );
}
