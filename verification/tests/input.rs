use otomieru_boyer::input::{
    Modifiers, MouseInputSettings, MousePreset, VariableMemoModifier, WheelAction, WheelModifier,
};

const NONE: Modifiers = Modifiers { shift: false, ctrl: false, alt: false };
const SHIFT: Modifiers = Modifiers { shift: true, ctrl: false, alt: false };
const CTRL: Modifiers = Modifiers { shift: false, ctrl: true, alt: false };
const ALT: Modifiers = Modifiers { shift: false, ctrl: false, alt: true };

#[test]
fn default_preset_preserves_existing_wheel_and_memo_bindings() {
    let settings = MouseInputSettings::default();
    assert_eq!(settings.wheel_action(NONE), Some(WheelAction::TimeZoom));
    assert_eq!(settings.wheel_action(CTRL), Some(WheelAction::PitchZoom));
    assert_eq!(settings.wheel_action(SHIFT), Some(WheelAction::TimePan));
    assert_eq!(settings.variable_memo_modifier, Some(VariableMemoModifier::Shift));
}

#[test]
fn selecting_an_assigned_wheel_modifier_swaps_the_two_actions() {
    let mut settings = MouseInputSettings::default();
    assert!(settings.set_wheel_modifier(WheelAction::TimePan, WheelModifier::Ctrl));
    assert_eq!(settings.time_pan_modifier, WheelModifier::Ctrl);
    assert_eq!(settings.pitch_zoom_modifier, WheelModifier::Shift);
}

#[test]
fn changing_a_binding_makes_the_settings_custom() {
    let mut settings = MouseInputSettings::for_preset(MousePreset::Default);
    assert!(settings.set_wheel_modifier(WheelAction::TimePan, WheelModifier::Ctrl));
    assert_eq!(settings.preset(), None);
}

#[test]
fn alt_scroll_is_never_an_application_action_on_linux() {
    let settings = MouseInputSettings {
        time_zoom_modifier: WheelModifier::Alt,
        ..MouseInputSettings::default()
    };

    assert_eq!(settings.wheel_action(ALT), None);
}

#[test]
fn selecting_the_same_modifier_again_changes_nothing() {
    let mut settings = MouseInputSettings::default();
    assert!(!settings.set_wheel_modifier(WheelAction::TimeZoom, WheelModifier::NoModifier));
    assert_eq!(settings, MouseInputSettings::default());
}

#[test]
fn presets_are_recognised_from_their_bindings() {
    assert_eq!(
        MouseInputSettings::for_preset(MousePreset::TimeNavigation).preset(),
        Some(MousePreset::TimeNavigation)
    );
    assert_eq!(MouseInputSettings::default().preset(), Some(MousePreset::Default));
    let navigation = MouseInputSettings::for_preset(MousePreset::TimeNavigation);
    assert_eq!(navigation.wheel_action(NONE), Some(WheelAction::TimePan));
    assert_eq!(navigation.wheel_action(CTRL), Some(WheelAction::TimeZoom));
}

#[test]
fn alt_bindings_are_moved_off_alt_for_linux() {
    let mut settings = MouseInputSettings {
        time_zoom_modifier: WheelModifier::Alt,
        variable_memo_modifier: Some(VariableMemoModifier::Alt),
        ..MouseInputSettings::default()
    };
    assert!(settings.normalize_for_platform());
    assert_ne!(settings.time_zoom_modifier, WheelModifier::Alt);
    assert_ne!(settings.variable_memo_modifier, Some(VariableMemoModifier::Alt));
    let again = settings;
    assert!(!settings.normalize_for_platform());
    assert_eq!(settings, again);
}

#[test]
fn the_variable_memo_modifier_matches_its_key_only() {
    let settings = MouseInputSettings::default();
    assert!(settings.variable_memo_modifier_matches(SHIFT));
    assert!(!settings.variable_memo_modifier_matches(CTRL));
    assert_eq!(WheelModifier::NoModifier.label(), "なし");
    assert_eq!(MousePreset::Default.label().is_empty(), false);
}
