use vstd::prelude::*;

use crate::comparison::{
    ComparisonPhase, default_comparison_sequence, is_valid_comparison_sequence,
    spec_default_comparison_sequence, valid_comparison_sequence,
};
use crate::input::{MouseInputSettings, MousePreset, spec_for_preset};
use crate::tool_palette::{
    ToolPaletteItem, all_tools, default_tool_palette_items, first_occurrences,
    lemma_normalized_order_is_a_permutation, normalized_tool_palette_order,
    ordered_visible_tools, spec_normalized_order, visible_in_order,
};

verus! {

/// The version of the settings file that this library writes.
pub const FORMAT_VERSION: u32 = 1;

/// The user's settings, shared by every song.
#[derive(Debug, Clone, PartialEq, Eq)]
pub struct AppSettings {
    pub format_version: u32,
    pub mouse_input: MouseInputSettings,
    pub tool_palette_items: Vec<ToolPaletteItem>,
    pub tool_palette_order: Vec<ToolPaletteItem>,
    pub comparison_sequence: Vec<ComparisonPhase>,
}

impl AppSettings {
    pub fn new() -> (settings: AppSettings)
        ensures
            settings.format_version == FORMAT_VERSION,
            settings.mouse_input == spec_for_preset(MousePreset::Default),
            settings.tool_palette_items@ == all_tools(),
            settings.tool_palette_order@ == all_tools(),
            settings.comparison_sequence@ == spec_default_comparison_sequence(),
    {
        AppSettings {
            format_version: FORMAT_VERSION,
            mouse_input: MouseInputSettings::for_preset(MousePreset::Default),
            tool_palette_items: default_tool_palette_items(),
            tool_palette_order: default_tool_palette_items(),
            comparison_sequence: default_comparison_sequence(),
        }
    }
}

impl Default for AppSettings {
    fn default() -> (settings: AppSettings)
        ensures
            settings.format_version == FORMAT_VERSION,
            settings.mouse_input == spec_for_preset(MousePreset::Default),
            settings.tool_palette_items@ == all_tools(),
            settings.tool_palette_order@ == all_tools(),
            settings.comparison_sequence@ == spec_default_comparison_sequence(),
    {
        AppSettings::new()
    }
}

/// A settings file whose version this library does not know.
#[derive(Debug, Clone, Copy, PartialEq, Eq)]
pub struct UnsupportedFormatVersion {
    pub format_version: u32,
}

/// What the version field of a settings file means: `Ok(true)` for a file
/// written before versions existed (it is read and then migrated),
/// `Ok(false)` for the current version, and an error for any other version.
pub fn check_settings_version(format_version: u32) -> (accepted: Result<
    bool,
    UnsupportedFormatVersion,
>)
    ensures
        match accepted {
            Ok(unversioned) => (format_version == 0 || format_version == FORMAT_VERSION) && (
            unversioned == (format_version == 0)),
            Err(error) => format_version != 0 && format_version != FORMAT_VERSION
                && error.format_version == format_version,
        },
{
    if format_version == 0 {
        Ok(true)
    } else if format_version != FORMAT_VERSION {
        Err(UnsupportedFormatVersion { format_version })
    } else {
        Ok(false)
    }
}

/// The palette as repaired: the master order holds each tool once, and the
/// visible tools follow it; when none of them remains, all tools are shown.
pub open spec fn repaired_visible(
    order: Seq<ToolPaletteItem>,
    visible: Seq<ToolPaletteItem>,
) -> Seq<ToolPaletteItem> {
    let filtered = visible_in_order(spec_normalized_order(order, visible), visible);
    if filtered.len() == 0 {
        all_tools()
    } else {
        filtered
    }
}

fn tools_equal(a: &Vec<ToolPaletteItem>, b: &Vec<ToolPaletteItem>) -> (equal: bool)
    ensures
        equal == (a@ == b@),
{
    if a.len() != b.len() {
        return false;
    }
    let mut index: usize = 0;
    while index < a.len()
        invariant
            a@.len() == b@.len(),
            index <= a.len(),
            forall|j: int| 0 <= j < index ==> a@[j] == b@[j],
        decreases a.len() - index,
    {
        if a[index] != b[index] {
            return false;
        }
        index = index + 1;
    }
    proof {
        assert(a@ =~= b@);
    }
    true
}

/// Falls back to the default sequence when the saved one cannot drive the
/// comparison loop. Returns whether it did.
pub fn normalize_comparison_sequence(settings: &mut AppSettings) -> (changed: bool)
    ensures
        changed == !valid_comparison_sequence(old(settings).comparison_sequence@),
        final(settings).comparison_sequence@ == if changed {
            spec_default_comparison_sequence()
        } else {
            old(settings).comparison_sequence@
        },
        final(settings).format_version == old(settings).format_version,
        final(settings).mouse_input == old(settings).mouse_input,
        final(settings).tool_palette_items@ == old(settings).tool_palette_items@,
        final(settings).tool_palette_order@ == old(settings).tool_palette_order@,
{
    if is_valid_comparison_sequence(settings.comparison_sequence.as_slice()) {
        false
    } else {
        settings.comparison_sequence = default_comparison_sequence();
        true
    }
}

/// Repairs the palette: every tool once in the master order, the visible
/// tools in that order, and at least one visible tool. Returns whether
/// anything changed.
pub fn normalize_tool_palette(settings: &mut AppSettings) -> (changed: bool)
    ensures
        final(settings).tool_palette_order@ == spec_normalized_order(
            old(settings).tool_palette_order@,
            old(settings).tool_palette_items@,
        ),
        final(settings).tool_palette_items@ == repaired_visible(
            old(settings).tool_palette_order@,
            old(settings).tool_palette_items@,
        ),
        changed == (final(settings).tool_palette_order@ != old(settings).tool_palette_order@
            || final(settings).tool_palette_items@ != old(settings).tool_palette_items@),
        final(settings).format_version == old(settings).format_version,
        final(settings).mouse_input == old(settings).mouse_input,
        final(settings).comparison_sequence@ == old(settings).comparison_sequence@,
{
    let original_order = settings.tool_palette_order.clone();
    let original_visible = settings.tool_palette_items.clone();
    proof {
        assert(original_order@ == settings.tool_palette_order@);
        assert(original_visible@ == settings.tool_palette_items@);
    }
    let order = normalized_tool_palette_order(original_order.as_slice(), original_visible.as_slice());
    let filtered = ordered_visible_tools(order.as_slice(), original_visible.as_slice());
    let visible = if filtered.len() == 0 {
        default_tool_palette_items()
    } else {
        filtered
    };
    settings.tool_palette_order = order;
    settings.tool_palette_items = visible;
    let order_changed = !tools_equal(&settings.tool_palette_order, &original_order);
    let visible_changed = !tools_equal(&settings.tool_palette_items, &original_visible);
    order_changed || visible_changed
}

/// Repairs the comparison sequence and the palette. Returns whether either
/// changed.
pub fn normalize_app_settings(settings: &mut AppSettings) -> (changed: bool)
    ensures
        final(settings).comparison_sequence@ == if valid_comparison_sequence(
            old(settings).comparison_sequence@,
        ) {
            old(settings).comparison_sequence@
        } else {
            spec_default_comparison_sequence()
        },
        final(settings).tool_palette_order@ == spec_normalized_order(
            old(settings).tool_palette_order@,
            old(settings).tool_palette_items@,
        ),
        final(settings).tool_palette_items@ == repaired_visible(
            old(settings).tool_palette_order@,
            old(settings).tool_palette_items@,
        ),
        changed == (!valid_comparison_sequence(old(settings).comparison_sequence@)
            || final(settings).tool_palette_order@ != old(settings).tool_palette_order@
            || final(settings).tool_palette_items@ != old(settings).tool_palette_items@),
        final(settings).format_version == old(settings).format_version,
        final(settings).mouse_input == old(settings).mouse_input,
{
    let sequence_changed = normalize_comparison_sequence(settings);
    let palette_changed = normalize_tool_palette(settings);
    sequence_changed || palette_changed
}

/// Finishes settings read from a file: a file without a version becomes the
/// current version; then the settings are repaired. Returns whether the
/// result differs from the file, so that it should be written back.
pub fn finish_loaded_settings(settings: &mut AppSettings, unversioned: bool) -> (write_back: bool)
    ensures
        final(settings).format_version == if unversioned {
            FORMAT_VERSION
        } else {
            old(settings).format_version
        },
        final(settings).mouse_input == old(settings).mouse_input,
        final(settings).comparison_sequence@ == if valid_comparison_sequence(
            old(settings).comparison_sequence@,
        ) {
            old(settings).comparison_sequence@
        } else {
            spec_default_comparison_sequence()
        },
        final(settings).tool_palette_order@ == spec_normalized_order(
            old(settings).tool_palette_order@,
            old(settings).tool_palette_items@,
        ),
        final(settings).tool_palette_items@ == repaired_visible(
            old(settings).tool_palette_order@,
            old(settings).tool_palette_items@,
        ),
        write_back == (unversioned || !valid_comparison_sequence(
            old(settings).comparison_sequence@,
        ) || final(settings).tool_palette_order@ != old(settings).tool_palette_order@
            || final(settings).tool_palette_items@ != old(settings).tool_palette_items@),
{
    if unversioned {
        settings.format_version = FORMAT_VERSION;
        normalize_app_settings(settings);
        true
    } else {
        normalize_app_settings(settings)
    }
}

/// Settings in the form that normalising produces.
pub open spec fn settings_are_normal(
    sequence: Seq<ComparisonPhase>,
    order: Seq<ToolPaletteItem>,
    visible: Seq<ToolPaletteItem>,
) -> bool {
    &&& valid_comparison_sequence(sequence)
    &&& order.no_duplicates()
    &&& order.len() == all_tools().len()
    &&& forall|tool: ToolPaletteItem| #[trigger] order.contains(tool)
    &&& visible.len() > 0
}

/// Normalised settings drive the comparison loop, hold every tool once in the
/// master order and show at least one tool.
pub proof fn lemma_normalized_settings_are_normal(
    sequence: Seq<ComparisonPhase>,
    order: Seq<ToolPaletteItem>,
    visible: Seq<ToolPaletteItem>,
)
    ensures
        settings_are_normal(
            if valid_comparison_sequence(sequence) {
                sequence
            } else {
                spec_default_comparison_sequence()
            },
            spec_normalized_order(order, visible),
            repaired_visible(order, visible),
        ),
{
    lemma_normalized_order_is_a_permutation(order, visible);
}

proof fn lemma_filter_congruent(
    items: Seq<ToolPaletteItem>,
    first: spec_fn(ToolPaletteItem) -> bool,
    second: spec_fn(ToolPaletteItem) -> bool,
)
    requires
        forall|i: int| 0 <= i < items.len() ==> first(#[trigger] items[i]) == second(items[i]),
    ensures
        items.filter(first) == items.filter(second),
    decreases items.len(),
{
    reveal_with_fuel(Seq::filter, 1);
    if items.len() > 0 {
        let earlier = items.drop_last();
        assert forall|i: int| 0 <= i < earlier.len() implies first(#[trigger] earlier[i]) == second(
            earlier[i],
        ) by {
            assert(earlier[i] == items[i]);
        }
        lemma_filter_congruent(earlier, first, second);
        assert(first(items[items.len() - 1]) == second(items[items.len() - 1]));
    }
}

proof fn lemma_first_occurrences_of_complete(
    prefix: Seq<ToolPaletteItem>,
    rest: Seq<ToolPaletteItem>,
    len: nat,
)
    requires
        first_occurrences(prefix) == prefix,
        forall|tool: ToolPaletteItem| #[trigger] prefix.contains(tool),
        len <= rest.len(),
    ensures
        first_occurrences(prefix + rest.take(len as int)) == prefix,
    decreases len,
{
    if len == 0 {
        assert(prefix + rest.take(0) =~= prefix);
    } else {
        lemma_first_occurrences_of_complete(prefix, rest, (len - 1) as nat);
        let whole = prefix + rest.take(len as int);
        assert(whole.drop_last() =~= prefix + rest.take(len - 1));
        assert(prefix.contains(whole.last()));
    }
}

/// Normalising settings that are already normalised changes nothing, as long
/// as the first normalisation kept some of the visible tools. (When none was
/// kept, all tools become visible in the built-in order, and a second pass
/// lays them out in the master order instead.)
pub proof fn lemma_normalizing_twice_changes_nothing(
    order: Seq<ToolPaletteItem>,
    visible: Seq<ToolPaletteItem>,
)
    requires
        visible_in_order(spec_normalized_order(order, visible), visible).len() > 0,
    ensures
        spec_normalized_order(
            spec_normalized_order(order, visible),
            repaired_visible(order, visible),
        ) == spec_normalized_order(order, visible),
        repaired_visible(spec_normalized_order(order, visible), repaired_visible(order, visible))
            == repaired_visible(order, visible),
{
    let normalized = spec_normalized_order(order, visible);
    let shown = repaired_visible(order, visible);
    lemma_normalized_order_is_a_permutation(order, visible);
    crate::tool_palette::lemma_first_occurrences_of_distinct(normalized);
    lemma_first_occurrences_of_complete(normalized, all_tools(), all_tools().len());
    assert(all_tools().take(all_tools().len() as int) =~= all_tools());
    assert(spec_normalized_order(normalized, shown) == normalized);
    let keep = |tool: ToolPaletteItem| visible.contains(tool);
    let keep_shown = |tool: ToolPaletteItem| shown.contains(tool);
    assert(shown == normalized.filter(keep));
    assert forall|i: int| 0 <= i < normalized.len() implies keep_shown(#[trigger] normalized[i])
        == keep(normalized[i]) by {
        let tool = normalized[i];
        if keep(tool) {
            normalized.lemma_filter_contains(keep, i);
        }
        if shown.contains(tool) {
            broadcast use vstd::seq_lib::group_filter_ensures;
            let k = choose|k: int| 0 <= k < shown.len() && shown[k] == tool;
            assert(keep(shown[k]));
        }
    }
    lemma_filter_congruent(normalized, keep_shown, keep);
}

} // verus!
