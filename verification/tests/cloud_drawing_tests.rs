use sonde::app_context::Sample;
use sonde::cloud_drawing::{
    cloud_profile_bars, draw_active_readout, draw_background, draw_background_lines, draw_data,
    draw_overlays, BarExtent, CloudPlotItem,
};

#[test]
fn background_items() {
    assert_eq!(draw_background_lines(true), vec![CloudPlotItem::Isobars]);
    assert_eq!(draw_background_lines(false), vec![]);
    assert_eq!(
        draw_background(true, true, true),
        vec![CloudPlotItem::DendriticSnowGrowthZone, CloudPlotItem::Isobars]
    );
    assert_eq!(draw_background(true, true, false), vec![CloudPlotItem::DendriticSnowGrowthZone]);
    assert_eq!(draw_background(true, false, true), vec![CloudPlotItem::Isobars]);
    assert_eq!(draw_background(false, true, true), vec![CloudPlotItem::Isobars]);
    assert_eq!(draw_background(false, false, false), vec![]);
}

#[test]
fn data_items() {
    assert_eq!(draw_data(true), vec![CloudPlotItem::CloudProfile]);
    assert_eq!(draw_data(false), vec![]);
}

#[test]
fn readout_line_only_for_sounding_sample_with_pressure() {
    let with_p = Sample::Sounding { has_pressure: true };
    assert_eq!(draw_active_readout(true, with_p), vec![CloudPlotItem::ActiveReadoutLine]);
    assert_eq!(draw_active_readout(false, with_p), vec![]);
    assert_eq!(draw_active_readout(true, Sample::Sounding { has_pressure: false }), vec![]);
    assert_eq!(draw_active_readout(true, Sample::FirePlume), vec![]);
    assert_eq!(draw_active_readout(true, Sample::Empty), vec![]);
    assert_eq!(draw_overlays(true, with_p), vec![CloudPlotItem::ActiveReadoutLine]);
    assert_eq!(draw_overlays(true, Sample::Empty), vec![]);
}

#[test]
fn bars_of_two_levels() {
    assert_eq!(
        cloud_profile_bars(2),
        vec![BarExtent::FromNext { next: 1 }, BarExtent::FromPrevious { previous: 0 }]
    );
}

#[test]
fn bars_of_five_levels() {
    assert_eq!(
        cloud_profile_bars(5),
        vec![
            BarExtent::FromNext { next: 1 },
            BarExtent::Between { previous: 0, next: 2 },
            BarExtent::Between { previous: 1, next: 3 },
            BarExtent::Between { previous: 2, next: 4 },
            BarExtent::FromPrevious { previous: 3 },
        ]
    );
}

#[test]
fn no_bars_with_fewer_than_two_levels() {
    assert_eq!(cloud_profile_bars(0), vec![]);
    assert_eq!(cloud_profile_bars(1), vec![]);
}
