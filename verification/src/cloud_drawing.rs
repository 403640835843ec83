//! What the cloud cover profile draws on each of its three layers, and how the bars of the cloud
//! profile are laid out between neighbouring levels. The caller turns these plans into drawing
//! commands in screen coordinates.

use crate::app_context::Sample;
use vstd::prelude::*;

verus! {

/// One item drawn on a layer of the cloud cover profile.
#[derive(Clone, Copy, Debug, PartialEq, Eq, Structural)]
pub enum CloudPlotItem {
    /// The dendritic snow growth zones of the displayed sounding, filled.
    DendriticSnowGrowthZone,
    /// The background isobars.
    Isobars,
    /// The cloud fraction at each level, as horizontal bars.
    CloudProfile,
    /// A horizontal line across the plot at the pressure of the sample.
    ActiveReadoutLine,
}

/// The background lines: the isobars when they are shown.
pub fn draw_background_lines(show_isobars: bool) -> (items: Vec<CloudPlotItem>)
    ensures
        items@ == (if show_isobars {
            seq![CloudPlotItem::Isobars]
        } else {
            Seq::empty()
        }),
{
    let mut items: Vec<CloudPlotItem> = Vec::new();
    if show_isobars {
        items.push(CloudPlotItem::Isobars);
    }
    assert(items@ =~= (if show_isobars {
        seq![CloudPlotItem::Isobars]
    } else {
        Seq::empty()
    }));
    items
}

/// The background layer: the dendritic snow growth zone of the sounding on display when it is
/// shown (there is none without a sounding), then the background lines.
pub fn draw_background(show_dendritic_zone: bool, sounding_displayed: bool, show_isobars: bool) -> (items: Vec<CloudPlotItem>)
    ensures
        items@ == (if show_dendritic_zone && sounding_displayed {
            seq![CloudPlotItem::DendriticSnowGrowthZone]
        } else {
            Seq::empty()
        }) + (if show_isobars {
            seq![CloudPlotItem::Isobars]
        } else {
            Seq::empty()
        }),
{
    let mut items: Vec<CloudPlotItem> = Vec::new();
    if show_dendritic_zone && sounding_displayed {
        items.push(CloudPlotItem::DendriticSnowGrowthZone);
    }
    let mut lines = draw_background_lines(show_isobars);
    items.append(&mut lines);
    items
}

/// The data layer: the cloud profile of the sounding on display; nothing when no sounding is
/// displayed.
pub fn draw_data(sounding_displayed: bool) -> (items: Vec<CloudPlotItem>)
    ensures
        items@ == (if sounding_displayed {
            seq![CloudPlotItem::CloudProfile]
        } else {
            Seq::empty()
        }),
{
    let mut items: Vec<CloudPlotItem> = Vec::new();
    if sounding_displayed {
        items.push(CloudPlotItem::CloudProfile);
    }
    assert(items@ =~= (if sounding_displayed {
        seq![CloudPlotItem::CloudProfile]
    } else {
        Seq::empty()
    }));
    items
}

/// The active readout: a line at the sample's pressure, when the readout is shown and the sample
/// is a sounding sample that has a pressure.
pub fn draw_active_readout(show_active_readout: bool, sample: Sample) -> (items: Vec<CloudPlotItem>)
    ensures
        items@ == (if show_active_readout && sample == (Sample::Sounding { has_pressure: true }) {
            seq![CloudPlotItem::ActiveReadoutLine]
        } else {
            Seq::empty()
        }),
{
    let mut items: Vec<CloudPlotItem> = Vec::new();
    if show_active_readout {
        if let Sample::Sounding { has_pressure } = sample {
            if has_pressure {
                items.push(CloudPlotItem::ActiveReadoutLine);
            }
        }
    }
    assert(items@ =~= (if show_active_readout && sample == (Sample::Sounding { has_pressure: true }) {
        seq![CloudPlotItem::ActiveReadoutLine]
    } else {
        Seq::empty()
    }));
    items
}

/// The overlay layer: the active readout.
pub fn draw_overlays(show_active_readout: bool, sample: Sample) -> (items: Vec<CloudPlotItem>)
    ensures
        items@ == (if show_active_readout && sample == (Sample::Sounding { has_pressure: true }) {
            seq![CloudPlotItem::ActiveReadoutLine]
        } else {
            Seq::empty()
        }),
{
    draw_active_readout(show_active_readout, sample)
}

/// How far up and down the bar of one level of the cloud profile reaches: half way to the
/// neighbouring levels. The first level reaches down as far as up, to half way to the next one;
/// the last reaches up as far as down, to half way from the previous one.
#[derive(Clone, Copy, Debug, PartialEq, Eq, Structural)]
pub enum BarExtent {
    /// Half way down to the previous level and half way up to the next.
    Between { previous: usize, next: usize },
    /// The last level: half the distance from the previous level, both ways.
    FromPrevious { previous: usize },
    /// The first level: half the distance to the next level, both ways.
    FromNext { next: usize },
}

/// The bar of level `i` of a profile with `n` levels.
pub open spec fn bar_extent(i: int, n: int) -> BarExtent {
    if i == 0 {
        BarExtent::FromNext { next: 1 }
    } else if i == n - 1 {
        BarExtent::FromPrevious { previous: (i - 1) as usize }
    } else {
        BarExtent::Between { previous: (i - 1) as usize, next: (i + 1) as usize }
    }
}

/// The bars of a cloud profile of `n` levels, walking the levels with the previous, current and
/// next one in view. A bar needs a neighbouring level to size it, so a profile of fewer than two
/// levels draws no bar.
pub fn cloud_profile_bars(n: usize) -> (bars: Vec<BarExtent>)
    ensures
        n < 2 ==> bars@.len() == 0,
        n >= 2 ==> bars@.len() == n,
        n >= 2 ==> forall|i: int| 0 <= i < n ==> #[trigger] bars@[i] == bar_extent(i, n as int),
        n >= 2 ==> bars@[0] == (BarExtent::FromNext { next: 1 }),
        n >= 2 ==> bars@[n - 1] == (BarExtent::FromPrevious { previous: (n - 2) as usize }),
        n >= 2 ==> forall|i: int|
            0 < i < n - 1 ==> #[trigger] bars@[i] == (BarExtent::Between { previous: (i - 1) as usize, next: (i + 1) as usize }),
{
    let mut bars: Vec<BarExtent> = Vec::new();
    if n < 2 {
        return bars;
    }
    let mut previous: Option<usize> = None;
    let mut curr: Option<usize> = None;
    let mut next: Option<usize> = None;
    // Index of the next level to bring into view.
    let mut k: usize = 0;
    loop
        invariant_except_break
            curr.is_none() ==> bars@.len() == 0 && previous.is_none() && ((k == 0 && next.is_none()) || (
            k == 1 && next == Some(0usize))),
            curr.is_some() ==> bars@.len() >= 1 && curr == Some((bars@.len() - 1) as usize) && previous == (
            if bars@.len() >= 2 {
                Some((bars@.len() - 2) as usize)
            } else {
                None::<usize>
            }) && next == (if bars@.len() < n {
                Some(bars@.len() as usize)
            } else {
                None::<usize>
            }) && k == (if bars@.len() + 1 <= n {
                (bars@.len() + 1) as int
            } else {
                n as int
            }),
        invariant
            n >= 2,
            k <= n,
            bars@.len() <= n,
            forall|i: int| 0 <= i < bars@.len() ==> #[trigger] bars@[i] == bar_extent(i, n as int),
        ensures
            bars@.len() == n,
            forall|i: int| 0 <= i < n ==> #[trigger] bars@[i] == bar_extent(i, n as int),
        decreases n + 2 - (if curr.is_none() {
            k as int
        } else {
            (bars@.len() + 1) as int
        }),
    {
        previous = curr;
        curr = next;
        if k < n {
            next = Some(k);
            k = k + 1;
        } else {
            next = None;
        }
        match (previous, curr, next) {
            (Some(p), Some(_), Some(nx)) => {
                // In the middle - most common
                bars.push(BarExtent::Between { previous: p, next: nx });
            },
            (Some(p), Some(_), None) => {
                // Last point
                bars.push(BarExtent::FromPrevious { previous: p });
            },
            (None, Some(_), Some(nx)) => {
                // First point
                bars.push(BarExtent::FromNext { next: nx });
            },
            (Some(_), None, None) => {
                // Done
                break;
            },
            _ => {
                // Just getting into the loop
            },
        }
    }
    bars
}

} // verus!
