use vstd::prelude::*;

verus! {

/// The modifier keys held while the wheel turns or the mouse presses.
#[derive(Debug, Clone, Copy, PartialEq, Eq, Structural)]
pub struct Modifiers {
    pub shift: bool,
    pub ctrl: bool,
    pub alt: bool,
}

/// The modifier that selects a wheel action.
#[derive(Debug, Clone, Copy, PartialEq, Eq, Structural)]
pub enum WheelModifier {
    NoModifier,
    Shift,
    Ctrl,
    Alt,
}

pub open spec fn wheel_modifier_label(modifier: WheelModifier) -> Seq<char> {
    match modifier {
        WheelModifier::NoModifier => "なし"@,
        WheelModifier::Shift => "Shift"@,
        WheelModifier::Ctrl => "Ctrl"@,
        WheelModifier::Alt => "Alt"@,
    }
}

/// Whether exactly the keys of `modifier` are held (no key for `None`).
pub open spec fn wheel_modifier_matches(modifier: WheelModifier, modifiers: Modifiers) -> bool {
    match modifier {
        WheelModifier::NoModifier => !modifiers.shift && !modifiers.ctrl && !modifiers.alt,
        WheelModifier::Shift => modifiers.shift && !modifiers.ctrl && !modifiers.alt,
        WheelModifier::Ctrl => !modifiers.shift && modifiers.ctrl && !modifiers.alt,
        WheelModifier::Alt => !modifiers.shift && !modifiers.ctrl && modifiers.alt,
    }
}

impl WheelModifier {
    /// The modifiers offered for wheel actions. Alt is left out: the Linux
    /// desktop takes Alt with the wheel for its own zoom.
    pub fn all() -> (all: Vec<WheelModifier>)
        ensures
            all@ == seq![WheelModifier::NoModifier, WheelModifier::Shift, WheelModifier::Ctrl],
    {
        let mut all = Vec::new();
        all.push(WheelModifier::NoModifier);
        all.push(WheelModifier::Shift);
        all.push(WheelModifier::Ctrl);
        all
    }

    pub fn label(self) -> (label: &'static str)
        ensures
            label@ == wheel_modifier_label(self),
    {
        match self {
            WheelModifier::NoModifier => "なし",
            WheelModifier::Shift => "Shift",
            WheelModifier::Ctrl => "Ctrl",
            WheelModifier::Alt => "Alt",
        }
    }

    pub fn matches(self, modifiers: Modifiers) -> (matched: bool)
        ensures
            matched == wheel_modifier_matches(self, modifiers),
    {
        match self {
            WheelModifier::NoModifier => !modifiers.shift && !modifiers.ctrl && !modifiers.alt,
            WheelModifier::Shift => modifiers.shift && !modifiers.ctrl && !modifiers.alt,
            WheelModifier::Ctrl => !modifiers.shift && modifiers.ctrl && !modifiers.alt,
            WheelModifier::Alt => !modifiers.shift && !modifiers.ctrl && modifiers.alt,
        }
    }
}

/// The modifier that turns a press on the spectrogram into a memo of
/// variable length.
#[derive(Debug, Clone, Copy, PartialEq, Eq, Structural)]
pub enum VariableMemoModifier {
    Shift,
    Ctrl,
    Alt,
}

pub open spec fn variable_memo_modifier_label(modifier: VariableMemoModifier) -> Seq<char> {
    match modifier {
        VariableMemoModifier::Shift => "Shift"@,
        VariableMemoModifier::Ctrl => "Ctrl"@,
        VariableMemoModifier::Alt => "Alt"@,
    }
}

pub open spec fn as_wheel_modifier(modifier: VariableMemoModifier) -> WheelModifier {
    match modifier {
        VariableMemoModifier::Shift => WheelModifier::Shift,
        VariableMemoModifier::Ctrl => WheelModifier::Ctrl,
        VariableMemoModifier::Alt => WheelModifier::Alt,
    }
}

impl VariableMemoModifier {
    /// The modifiers offered for variable-length memos (Alt is reserved by
    /// the Linux desktop).
    pub fn all() -> (all: Vec<VariableMemoModifier>)
        ensures
            all@ == seq![VariableMemoModifier::Shift, VariableMemoModifier::Ctrl],
    {
        let mut all = Vec::new();
        all.push(VariableMemoModifier::Shift);
        all.push(VariableMemoModifier::Ctrl);
        all
    }

    pub fn label(self) -> (label: &'static str)
        ensures
            label@ == variable_memo_modifier_label(self),
    {
        match self {
            VariableMemoModifier::Shift => "Shift",
            VariableMemoModifier::Ctrl => "Ctrl",
            VariableMemoModifier::Alt => "Alt",
        }
    }

    pub fn matches(self, modifiers: Modifiers) -> (matched: bool)
        ensures
            matched == wheel_modifier_matches(as_wheel_modifier(self), modifiers),
    {
        match self {
            VariableMemoModifier::Shift => WheelModifier::Shift.matches(modifiers),
            VariableMemoModifier::Ctrl => WheelModifier::Ctrl.matches(modifiers),
            VariableMemoModifier::Alt => WheelModifier::Alt.matches(modifiers),
        }
    }
}

/// What turning the wheel does over the spectrogram.
#[derive(Debug, Clone, Copy, PartialEq, Eq, Structural)]
pub enum WheelAction {
    TimeZoom,
    PitchZoom,
    TimePan,
}

/// A named set of bindings.
#[derive(Debug, Clone, Copy, PartialEq, Eq, Structural)]
pub enum MousePreset {
    Default,
    TimeNavigation,
}

pub open spec fn mouse_preset_label(preset: MousePreset) -> Seq<char> {
    match preset {
        MousePreset::Default => "既定"@,
        MousePreset::TimeNavigation => "時間移動重視"@,
    }
}

impl MousePreset {
    pub fn all() -> (all: Vec<MousePreset>)
        ensures
            all@ == seq![MousePreset::Default, MousePreset::TimeNavigation],
    {
        let mut all = Vec::new();
        all.push(MousePreset::Default);
        all.push(MousePreset::TimeNavigation);
        all
    }

    pub fn label(self) -> (label: &'static str)
        ensures
            label@ == mouse_preset_label(self),
    {
        match self {
            MousePreset::Default => "既定",
            MousePreset::TimeNavigation => "時間移動重視",
        }
    }
}

/// Mouse bindings of the user (not of a song).
#[derive(Debug, Clone, Copy, PartialEq, Eq, Structural)]
pub struct MouseInputSettings {
    pub time_zoom_modifier: WheelModifier,
    pub pitch_zoom_modifier: WheelModifier,
    pub time_pan_modifier: WheelModifier,
    pub variable_memo_modifier: Option<VariableMemoModifier>,
}

pub open spec fn spec_for_preset(preset: MousePreset) -> MouseInputSettings {
    match preset {
        MousePreset::Default => MouseInputSettings {
            time_zoom_modifier: WheelModifier::NoModifier,
            pitch_zoom_modifier: WheelModifier::Ctrl,
            time_pan_modifier: WheelModifier::Shift,
            variable_memo_modifier: Some(VariableMemoModifier::Shift),
        },
        MousePreset::TimeNavigation => MouseInputSettings {
            time_zoom_modifier: WheelModifier::Ctrl,
            pitch_zoom_modifier: WheelModifier::Shift,
            time_pan_modifier: WheelModifier::NoModifier,
            variable_memo_modifier: Some(VariableMemoModifier::Shift),
        },
    }
}

/// The modifier bound to `action`.
pub open spec fn binding(settings: MouseInputSettings, action: WheelAction) -> WheelModifier {
    match action {
        WheelAction::TimeZoom => settings.time_zoom_modifier,
        WheelAction::PitchZoom => settings.pitch_zoom_modifier,
        WheelAction::TimePan => settings.time_pan_modifier,
    }
}

/// The action that a wheel turn performs with `modifiers` held: none while
/// Alt is held (the Linux desktop owns Alt with the wheel), otherwise the
/// first of time zoom, pitch zoom and time pan whose modifier matches.
pub open spec fn spec_wheel_action(settings: MouseInputSettings, modifiers: Modifiers) -> Option<
    WheelAction,
> {
    if modifiers.alt {
        None
    } else if wheel_modifier_matches(settings.time_zoom_modifier, modifiers) {
        Some(WheelAction::TimeZoom)
    } else if wheel_modifier_matches(settings.pitch_zoom_modifier, modifiers) {
        Some(WheelAction::PitchZoom)
    } else if wheel_modifier_matches(settings.time_pan_modifier, modifiers) {
        Some(WheelAction::TimePan)
    } else {
        None
    }
}

/// The action that already holds `modifier` and gives it up when `action`
/// takes it: the first other action, in the order time zoom, pitch zoom,
/// time pan, bound to `modifier`.
pub open spec fn displaced_action(
    settings: MouseInputSettings,
    action: WheelAction,
    modifier: WheelModifier,
) -> Option<WheelAction> {
    if action != WheelAction::TimeZoom && settings.time_zoom_modifier == modifier {
        Some(WheelAction::TimeZoom)
    } else if action != WheelAction::PitchZoom && settings.pitch_zoom_modifier == modifier {
        Some(WheelAction::PitchZoom)
    } else if action != WheelAction::TimePan && settings.time_pan_modifier == modifier {
        Some(WheelAction::TimePan)
    } else {
        None
    }
}

/// No two wheel actions share a modifier.
pub open spec fn bindings_distinct(settings: MouseInputSettings) -> bool {
    &&& settings.time_zoom_modifier != settings.pitch_zoom_modifier
    &&& settings.time_zoom_modifier != settings.time_pan_modifier
    &&& settings.pitch_zoom_modifier != settings.time_pan_modifier
}

/// Whether any binding uses Alt, which the Linux desktop takes.
pub open spec fn uses_alt(settings: MouseInputSettings) -> bool {
    ||| settings.time_zoom_modifier == WheelModifier::Alt
    ||| settings.pitch_zoom_modifier == WheelModifier::Alt
    ||| settings.time_pan_modifier == WheelModifier::Alt
    ||| settings.variable_memo_modifier == Some(VariableMemoModifier::Alt)
}

impl MouseInputSettings {
    pub fn for_preset(preset: MousePreset) -> (settings: MouseInputSettings)
        ensures
            settings == spec_for_preset(preset),
    {
        match preset {
            MousePreset::Default => MouseInputSettings {
                time_zoom_modifier: WheelModifier::NoModifier,
                pitch_zoom_modifier: WheelModifier::Ctrl,
                time_pan_modifier: WheelModifier::Shift,
                variable_memo_modifier: Some(VariableMemoModifier::Shift),
            },
            MousePreset::TimeNavigation => MouseInputSettings {
                time_zoom_modifier: WheelModifier::Ctrl,
                pitch_zoom_modifier: WheelModifier::Shift,
                time_pan_modifier: WheelModifier::NoModifier,
                variable_memo_modifier: Some(VariableMemoModifier::Shift),
            },
        }
    }

    /// The preset whose bindings these are, if any.
    pub fn preset(&self) -> (preset: Option<MousePreset>)
        ensures
            match preset {
                Some(p) => *self == spec_for_preset(p),
                None => forall|p: MousePreset| *self != spec_for_preset(p),
            },
            *self == spec_for_preset(MousePreset::Default) ==> preset == Some(
                MousePreset::Default,
            ),
    {
        let presets = MousePreset::all();
        let mut index: usize = 0;
        while index < presets.len()
            invariant
                presets@ == seq![MousePreset::Default, MousePreset::TimeNavigation],
                index <= presets.len(),
                forall|j: int| 0 <= j < index ==> *self != spec_for_preset(#[trigger] presets@[j]),
            decreases presets.len() - index,
        {
            let candidate = Self::for_preset(presets[index]);
            if *self == candidate {
                return Some(presets[index]);
            }
            index = index + 1;
        }
        proof {
            assert forall|p: MousePreset| *self != spec_for_preset(p) by {
                match p {
                    MousePreset::Default => assert(presets@[0] == p),
                    MousePreset::TimeNavigation => assert(presets@[1] == p),
                }
            }
        }
        None
    }

    pub fn wheel_action(&self, modifiers: Modifiers) -> (action: Option<WheelAction>)
        ensures
            action == spec_wheel_action(*self, modifiers),
    {
        // Alt with the wheel belongs to the Linux desktop, even when an older
        // saved binding still names it.
        if modifiers.alt {
            return None;
        }
        if self.time_zoom_modifier.matches(modifiers) {
            Some(WheelAction::TimeZoom)
        } else if self.pitch_zoom_modifier.matches(modifiers) {
            Some(WheelAction::PitchZoom)
        } else if self.time_pan_modifier.matches(modifiers) {
            Some(WheelAction::TimePan)
        } else {
            None
        }
    }

    pub fn variable_memo_modifier_matches(&self, modifiers: Modifiers) -> (matched: bool)
        ensures
            matched == match self.variable_memo_modifier {
                Some(modifier) => wheel_modifier_matches(as_wheel_modifier(modifier), modifiers),
                None => false,
            },
    {
        match self.variable_memo_modifier {
            Some(modifier) => modifier.matches(modifiers),
            None => false,
        }
    }

    /// Binds `modifier` to `action`. An action that already held `modifier`
    /// takes over the old modifier of `action`, so that the two swap. Returns
    /// whether anything changed.
    pub fn set_wheel_modifier(&mut self, action: WheelAction, modifier: WheelModifier) -> (changed:
        bool)
        ensures
            changed == (binding(*old(self), action) != modifier),
            final(self).variable_memo_modifier == old(self).variable_memo_modifier,
            forall|a: WheelAction|
                #![trigger binding(*final(self), a)]
                binding(*final(self), a) == if !changed {
                    binding(*old(self), a)
                } else if a == action {
                    modifier
                } else if displaced_action(*old(self), action, modifier) == Some(a) {
                    binding(*old(self), action)
                } else {
                    binding(*old(self), a)
                },
    {
        let current = self.wheel_modifier(action);
        if current == modifier {
            return false;
        }
        if action != WheelAction::TimeZoom && self.time_zoom_modifier == modifier {
            self.set_wheel_modifier_value(WheelAction::TimeZoom, current);
        } else if action != WheelAction::PitchZoom && self.pitch_zoom_modifier == modifier {
            self.set_wheel_modifier_value(WheelAction::PitchZoom, current);
        } else if action != WheelAction::TimePan && self.time_pan_modifier == modifier {
            self.set_wheel_modifier_value(WheelAction::TimePan, current);
        }
        self.set_wheel_modifier_value(action, modifier);
        true
    }

    /// Replaces bindings that use Alt, which the Linux desktop takes, with
    /// the default bindings. Returns whether it did.
    pub fn normalize_for_platform(&mut self) -> (changed: bool)
        ensures
            changed == uses_alt(*old(self)),
            *final(self) == if changed {
                spec_for_preset(MousePreset::Default)
            } else {
                *old(self)
            },
    {
        if self.time_zoom_modifier == WheelModifier::Alt || self.pitch_zoom_modifier
            == WheelModifier::Alt || self.time_pan_modifier == WheelModifier::Alt
            || self.variable_memo_modifier == Some(VariableMemoModifier::Alt) {
            *self = Self::for_preset(MousePreset::Default);
            return true;
        }
        false
    }

    fn wheel_modifier(&self, action: WheelAction) -> (modifier: WheelModifier)
        ensures
            modifier == binding(*self, action),
    {
        match action {
            WheelAction::TimeZoom => self.time_zoom_modifier,
            WheelAction::PitchZoom => self.pitch_zoom_modifier,
            WheelAction::TimePan => self.time_pan_modifier,
        }
    }

    fn set_wheel_modifier_value(&mut self, action: WheelAction, modifier: WheelModifier)
        ensures
            final(self).variable_memo_modifier == old(self).variable_memo_modifier,
            forall|a: WheelAction|
                #![trigger binding(*final(self), a)]
                binding(*final(self), a) == if a == action {
                    modifier
                } else {
                    binding(*old(self), a)
                },
    {
        match action {
            WheelAction::TimeZoom => self.time_zoom_modifier = modifier,
            WheelAction::PitchZoom => self.pitch_zoom_modifier = modifier,
            WheelAction::TimePan => self.time_pan_modifier = modifier,
        }
    }
}

impl Default for MouseInputSettings {
    fn default() -> (settings: MouseInputSettings)
        ensures
            settings == spec_for_preset(MousePreset::Default),
    {
        Self::for_preset(MousePreset::Default)
    }
}

/// Each preset is recognised as itself, and the two presets differ.
pub proof fn lemma_presets_are_recognised(preset: MousePreset)
    ensures
        forall|other: MousePreset|
            spec_for_preset(preset) == spec_for_preset(other) ==> other == preset,
        bindings_distinct(spec_for_preset(preset)),
        !uses_alt(spec_for_preset(preset)),
{
}

/// Rebinding keeps the wheel actions on pairwise different modifiers: when
/// the modifier was taken, the two actions swap.
pub proof fn lemma_rebinding_keeps_bindings_distinct(
    before: MouseInputSettings,
    after: MouseInputSettings,
    action: WheelAction,
    modifier: WheelModifier,
)
    requires
        bindings_distinct(before),
        binding(before, action) != modifier,
        after.variable_memo_modifier == before.variable_memo_modifier,
        forall|a: WheelAction|
            #![trigger binding(after, a)]
            binding(after, a) == if a == action {
                modifier
            } else if displaced_action(before, action, modifier) == Some(a) {
                binding(before, action)
            } else {
                binding(before, a)
            },
    ensures
        bindings_distinct(after),
        binding(after, action) == modifier,
{
    assert(binding(after, WheelAction::TimeZoom) == after.time_zoom_modifier);
    assert(binding(after, WheelAction::PitchZoom) == after.pitch_zoom_modifier);
    assert(binding(after, WheelAction::TimePan) == after.time_pan_modifier);
}

/// With distinct bindings a wheel turn without Alt selects the one action
/// whose modifier matches the keys held.
pub proof fn lemma_wheel_action_is_the_matching_binding(
    settings: MouseInputSettings,
    modifiers: Modifiers,
    action: WheelAction,
)
    requires
        bindings_distinct(settings),
        !modifiers.alt,
        wheel_modifier_matches(binding(settings, action), modifiers),
    ensures
        spec_wheel_action(settings, modifiers) == Some(action),
{
}

/// Normalising for the platform leaves no Alt binding, and a second call
/// changes nothing.
pub proof fn lemma_normalized_settings_are_stable(
    before: MouseInputSettings,
    after: MouseInputSettings,
)
    requires
        after == (if uses_alt(before) {
            spec_for_preset(MousePreset::Default)
        } else {
            before
        }),
    ensures
        !uses_alt(after),
{
}

} // verus!
