use vstd::prelude::*;

verus! {

/// A tool that the palette of frequently used tools can show.
#[derive(Debug, Clone, Copy, PartialEq, Eq, Structural)]
pub enum ToolPaletteItem {
    Equalizer,
    Fundamental,
    Timbre,
    Tuning,
    Layers,
    LoopSequencer,
}

/// Every tool, in the palette's built-in order.
pub open spec fn all_tools() -> Seq<ToolPaletteItem> {
    seq![
        ToolPaletteItem::Equalizer,
        ToolPaletteItem::Fundamental,
        ToolPaletteItem::Timbre,
        ToolPaletteItem::Tuning,
        ToolPaletteItem::Layers,
        ToolPaletteItem::LoopSequencer,
    ]
}

pub open spec fn tool_label(tool: ToolPaletteItem) -> Seq<char> {
    match tool {
        ToolPaletteItem::Equalizer => "EQ"@,
        ToolPaletteItem::Fundamental => "基音強調"@,
        ToolPaletteItem::Timbre => "音色"@,
        ToolPaletteItem::Tuning => "チューニング"@,
        ToolPaletteItem::Layers => "レイヤー"@,
        ToolPaletteItem::LoopSequencer => "比較パターン"@,
    }
}

impl ToolPaletteItem {
    pub fn all() -> (all: Vec<ToolPaletteItem>)
        ensures
            all@ == all_tools(),
    {
        let mut all = Vec::new();
        all.push(ToolPaletteItem::Equalizer);
        all.push(ToolPaletteItem::Fundamental);
        all.push(ToolPaletteItem::Timbre);
        all.push(ToolPaletteItem::Tuning);
        all.push(ToolPaletteItem::Layers);
        all.push(ToolPaletteItem::LoopSequencer);
        all
    }

    pub fn label(self) -> (label: &'static str)
        ensures
            label@ == tool_label(self),
    {
        match self {
            ToolPaletteItem::Equalizer => "EQ",
            ToolPaletteItem::Fundamental => "基音強調",
            ToolPaletteItem::Timbre => "音色",
            ToolPaletteItem::Tuning => "チューニング",
            ToolPaletteItem::Layers => "レイヤー",
            ToolPaletteItem::LoopSequencer => "比較パターン",
        }
    }
}

pub fn default_tool_palette_items() -> (items: Vec<ToolPaletteItem>)
    ensures
        items@ == all_tools(),
{
    ToolPaletteItem::all()
}

fn contains_tool(tools: &[ToolPaletteItem], tool: ToolPaletteItem) -> (found: bool)
    ensures
        found == tools@.contains(tool),
{
    let mut index: usize = 0;
    while index < tools.len()
        invariant
            index <= tools.len(),
            forall|j: int| 0 <= j < index ==> tools@[j] != tool,
        decreases tools.len() - index,
    {
        if tools[index] == tool {
            return true;
        }
        index = index + 1;
    }
    false
}

/// The tools of `order` that are also in `visible`, in the order of `order`.
pub open spec fn visible_in_order(
    order: Seq<ToolPaletteItem>,
    visible: Seq<ToolPaletteItem>,
) -> Seq<ToolPaletteItem> {
    order.filter(|tool: ToolPaletteItem| visible.contains(tool))
}

/// Lays the visible tools out in the order of the master palette.
pub fn ordered_visible_tools(order: &[ToolPaletteItem], visible_tools: &[ToolPaletteItem]) -> (tools:
    Vec<ToolPaletteItem>)
    ensures
        tools@ == visible_in_order(order@, visible_tools@),
{
    let mut tools = Vec::new();
    let mut index: usize = 0;
    while index < order.len()
        invariant
            index <= order.len(),
            tools@ == visible_in_order(order@.take(index as int), visible_tools@),
        decreases order.len() - index,
    {
        proof {
            assert(order@.take(index + 1).drop_last() =~= order@.take(index as int));
            assert(order@.take(index + 1).last() == order@[index as int]);
        }
        let tool = order[index];
        if contains_tool(visible_tools, tool) {
            tools.push(tool);
        }
        proof {
            let pred = |t: ToolPaletteItem| visible_tools@.contains(t);
            let prefix = order@.take(index + 1);
            reveal_with_fuel(Seq::filter, 1);
            assert(prefix.filter(pred) == if pred(prefix.last()) {
                prefix.drop_last().filter(pred).push(prefix.last())
            } else {
                prefix.drop_last().filter(pred)
            });
        }
        index = index + 1;
    }
    proof {
        assert(order@.take(order.len() as int) =~= order@);
    }
    tools
}

/// Each element of `items` at its first occurrence, in order.
pub open spec fn first_occurrences(items: Seq<ToolPaletteItem>) -> Seq<ToolPaletteItem>
    decreases items.len(),
{
    if items.len() == 0 {
        items
    } else {
        let earlier = first_occurrences(items.drop_last());
        if earlier.contains(items.last()) {
            earlier
        } else {
            earlier.push(items.last())
        }
    }
}

/// The master order: the saved order, or the visible tools when no order was
/// saved, followed by the tools it lacks, each tool once.
pub open spec fn spec_normalized_order(
    order: Seq<ToolPaletteItem>,
    visible: Seq<ToolPaletteItem>,
) -> Seq<ToolPaletteItem> {
    let source = if order.len() == 0 {
        visible
    } else {
        order
    };
    first_occurrences(source + all_tools())
}

/// Repairs a master order so that it holds every tool exactly once.
pub fn normalized_tool_palette_order(
    order: &[ToolPaletteItem],
    visible_tools: &[ToolPaletteItem],
) -> (normalized: Vec<ToolPaletteItem>)
    ensures
        normalized@ == spec_normalized_order(order@, visible_tools@),
{
    let all = ToolPaletteItem::all();
    let source = if order.len() == 0 {
        visible_tools
    } else {
        order
    };
    let ghost combined = source@ + all@;
    let mut normalized: Vec<ToolPaletteItem> = Vec::new();
    let mut index: usize = 0;
    while index < source.len()
        invariant
            index <= source.len(),
            combined == source@ + all@,
            normalized@ == first_occurrences(combined.take(index as int)),
        decreases source.len() - index,
    {
        proof {
            assert(combined.take(index + 1).drop_last() =~= combined.take(index as int));
            assert(combined.take(index + 1).last() == source@[index as int]);
        }
        let tool = source[index];
        if !contains_tool(normalized.as_slice(), tool) {
            normalized.push(tool);
        }
        index = index + 1;
    }
    let mut index: usize = 0;
    while index < all.len()
        invariant
            index <= all.len(),
            all@ == all_tools(),
            combined == source@ + all@,
            normalized@ == first_occurrences(combined.take((source@.len() + index) as int)),
        decreases all.len() - index,
    {
        proof {
            let n = (source@.len() + index) as int;
            assert(combined.take(n + 1).drop_last() =~= combined.take(n));
            assert(combined.take(n + 1).last() == all@[index as int]);
        }
        let tool = all[index];
        if !contains_tool(normalized.as_slice(), tool) {
            normalized.push(tool);
        }
        index = index + 1;
    }
    proof {
        assert(combined.take((source@.len() + all@.len()) as int) =~= combined);
    }
    normalized
}

proof fn lemma_first_occurrences(items: Seq<ToolPaletteItem>)
    ensures
        first_occurrences(items).no_duplicates(),
        forall|tool: ToolPaletteItem|
            #![trigger first_occurrences(items).contains(tool)]
            first_occurrences(items).contains(tool) <==> items.contains(tool),
    decreases items.len(),
{
    if items.len() > 0 {
        let earlier = items.drop_last();
        let before = first_occurrences(earlier);
        let after = first_occurrences(items);
        lemma_first_occurrences(earlier);
        assert forall|tool: ToolPaletteItem| after.contains(tool) <==> items.contains(tool) by {
            if items.contains(tool) {
                let i = choose|i: int| 0 <= i < items.len() && items[i] == tool;
                if i < items.len() - 1 {
                    assert(earlier[i] == tool);
                    assert(before.contains(tool));
                    let k = choose|k: int| 0 <= k < before.len() && before[k] == tool;
                    if !before.contains(items.last()) {
                        assert(after[k] == tool);
                    }
                } else {
                    if !before.contains(items.last()) {
                        assert(after[after.len() - 1] == tool);
                    }
                }
            }
            if after.contains(tool) {
                let k = choose|k: int| 0 <= k < after.len() && after[k] == tool;
                if k < before.len() {
                    assert(after[k] == before[k]);
                    assert(before.contains(tool));
                    let i = choose|i: int| 0 <= i < earlier.len() && earlier[i] == tool;
                    assert(items[i] == tool);
                } else {
                    assert(!before.contains(items.last()));
                    assert(after[k] == items.last());
                    assert(items[items.len() - 1] == tool);
                }
            }
        }
    }
}

pub proof fn lemma_first_occurrences_of_distinct(items: Seq<ToolPaletteItem>)
    requires
        items.no_duplicates(),
    ensures
        first_occurrences(items) == items,
    decreases items.len(),
{
    if items.len() > 0 {
        let earlier = items.drop_last();
        assert(earlier.no_duplicates());
        lemma_first_occurrences_of_distinct(earlier);
        assert(!earlier.contains(items.last())) by {
            if earlier.contains(items.last()) {
                let i = choose|i: int| 0 <= i < earlier.len() && earlier[i] == items.last();
                assert(items[i] == items[items.len() - 1]);
            }
        }
        assert(earlier.push(items.last()) =~= items);
    }
}

proof fn lemma_first_occurrences_keeps_distinct_prefix(
    prefix: Seq<ToolPaletteItem>,
    rest: Seq<ToolPaletteItem>,
    len: nat,
)
    requires
        prefix.no_duplicates(),
        len <= rest.len(),
    ensures
        first_occurrences(prefix + rest.take(len as int)).take(prefix.len() as int) == prefix,
        first_occurrences(prefix + rest.take(len as int)).len() >= prefix.len(),
    decreases len,
{
    let whole = prefix + rest.take(len as int);
    if len > 0 {
        lemma_first_occurrences_keeps_distinct_prefix(prefix, rest, (len - 1) as nat);
        let shorter = prefix + rest.take(len - 1);
        assert(whole.drop_last() =~= shorter);
        let before = first_occurrences(shorter);
        if !before.contains(whole.last()) {
            assert(before.push(whole.last()).take(prefix.len() as int) =~= before.take(
                prefix.len() as int,
            ));
        }
    } else {
        assert(rest.take(0) =~= Seq::<ToolPaletteItem>::empty());
        assert(whole =~= prefix);
        lemma_first_occurrences_of_distinct(prefix);
        assert(prefix.take(prefix.len() as int) =~= prefix);
    }
}

/// The master order holds every tool exactly once; a saved order (or, when
/// none was saved, the visible tools) without repeats stays at its start.
pub proof fn lemma_normalized_order_is_a_permutation(
    order: Seq<ToolPaletteItem>,
    visible: Seq<ToolPaletteItem>,
)
    ensures
        spec_normalized_order(order, visible).no_duplicates(),
        forall|tool: ToolPaletteItem|
            #![trigger spec_normalized_order(order, visible).contains(tool)]
            spec_normalized_order(order, visible).contains(tool),
        spec_normalized_order(order, visible).len() == all_tools().len(),
        ({
            let source = if order.len() == 0 {
                visible
            } else {
                order
            };
            source.no_duplicates() ==> spec_normalized_order(order, visible).take(
                source.len() as int,
            ) == source
        }),
{
    let source = if order.len() == 0 {
        visible
    } else {
        order
    };
    let combined = source + all_tools();
    let normalized = spec_normalized_order(order, visible);
    lemma_first_occurrences(combined);
    assert forall|tool: ToolPaletteItem| normalized.contains(tool) by {
        let i: int = match tool {
            ToolPaletteItem::Equalizer => 0,
            ToolPaletteItem::Fundamental => 1,
            ToolPaletteItem::Timbre => 2,
            ToolPaletteItem::Tuning => 3,
            ToolPaletteItem::Layers => 4,
            ToolPaletteItem::LoopSequencer => 5,
        };
        assert(combined[source.len() + i] == tool);
    }
    assert(all_tools().no_duplicates());
    assert(normalized.to_set() =~= all_tools().to_set()) by {
        assert forall|tool: ToolPaletteItem| all_tools().contains(tool) by {
            let i: int = match tool {
                ToolPaletteItem::Equalizer => 0,
                ToolPaletteItem::Fundamental => 1,
                ToolPaletteItem::Timbre => 2,
                ToolPaletteItem::Tuning => 3,
                ToolPaletteItem::Layers => 4,
                ToolPaletteItem::LoopSequencer => 5,
            };
            assert(all_tools()[i] == tool);
        }
    }
    normalized.unique_seq_to_set();
    all_tools().unique_seq_to_set();
    if source.no_duplicates() {
        lemma_first_occurrences_keeps_distinct_prefix(source, all_tools(), all_tools().len());
        assert(all_tools().take(all_tools().len() as int) =~= all_tools());
    }
}

} // verus!
