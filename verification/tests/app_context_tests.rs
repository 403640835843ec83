use sonde::app_context::{
    AppContext, DrawingArea, LayerCache, LoadedAction, RedrawPlan, Sample, SampleUpdate,
    ZoomableDrawingAreas, KEY_KP_LEFT, KEY_KP_RIGHT, KEY_LEFT, KEY_RIGHT,
};
use sonde::ordering::ValidTime;

const ALL_AREAS: [DrawingArea; 7] = [
    DrawingArea::Hodo,
    DrawingArea::FirePlume,
    DrawingArea::FirePlumeEnergy,
    DrawingArea::SkewT,
    DrawingArea::RhOmega,
    DrawingArea::Cloud,
    DrawingArea::WindSpeed,
];

fn vt(secs: i64) -> Option<ValidTime> {
    Some(ValidTime { secs, nanos: 0 })
}

fn clean_all(ac: &mut AppContext) {
    for area in ALL_AREAS {
        ac.draw_callback(area);
    }
}

fn loaded(n: usize) -> AppContext {
    let mut ac = AppContext::initialize();
    let times: Vec<Option<ValidTime>> = (0..n).map(|i| vt(1000 * i as i64)).collect();
    ac.load_data(&times);
    ac
}

#[test]
fn initialize_starts_empty_and_dirty() {
    let ac = AppContext::initialize();
    assert_eq!(ac.len(), 0);
    assert_eq!(ac.currently_displayed_index(), 0);
    assert_eq!(ac.load_calls(), 0);
    assert_eq!(ac.last_focus(), ZoomableDrawingAreas::SkewT);
    assert_eq!(ac.get_sample(), Sample::Empty);
    assert!(!ac.plottable());
    assert_eq!(ac.get_sounding_for_display(), None);
    for area in ALL_AREAS {
        assert_eq!(
            ac.cache(area),
            LayerCache { background_dirty: true, data_dirty: true, overlay_dirty: true }
        );
    }
}

#[test]
fn layer_cache_draws_only_dirty_layers() {
    let mut c = LayerCache::new();
    assert_eq!(c.draw_callback(), RedrawPlan { background: true, data: true, overlay: true });
    assert_eq!(c.draw_callback(), RedrawPlan { background: false, data: false, overlay: false });
    c.mark_data_dirty();
    assert_eq!(c.draw_callback(), RedrawPlan { background: false, data: true, overlay: false });
    c.mark_overlay_dirty();
    assert!(c.draw_active_readout_cached());
    assert!(!c.draw_active_readout_cached());
    c.mark_background_dirty();
    assert!(c.draw_background_cached());
    assert!(!c.draw_data_cached());
}

#[test]
fn draw_callback_cleans_only_its_plot() {
    let mut ac = AppContext::initialize();
    let plan = ac.draw_callback(DrawingArea::SkewT);
    assert_eq!(plan, RedrawPlan { background: true, data: true, overlay: true });
    assert_eq!(
        ac.cache(DrawingArea::SkewT),
        LayerCache { background_dirty: false, data_dirty: false, overlay_dirty: false }
    );
    assert_eq!(
        ac.cache(DrawingArea::Hodo),
        LayerCache { background_dirty: true, data_dirty: true, overlay_dirty: true }
    );
    let again = ac.draw_callback(DrawingArea::SkewT);
    assert_eq!(again, RedrawPlan { background: false, data: false, overlay: false });
}

#[test]
fn marking_layers_dirty_reaches_every_plot() {
    let mut ac = AppContext::initialize();
    clean_all(&mut ac);
    ac.mark_data_dirty();
    for area in ALL_AREAS {
        assert_eq!(
            ac.cache(area),
            LayerCache { background_dirty: false, data_dirty: true, overlay_dirty: false }
        );
    }
    clean_all(&mut ac);
    ac.mark_overlay_dirty();
    for area in ALL_AREAS {
        assert_eq!(
            ac.cache(area),
            LayerCache { background_dirty: false, data_dirty: false, overlay_dirty: true }
        );
    }
    clean_all(&mut ac);
    ac.mark_background_dirty();
    for area in ALL_AREAS {
        assert_eq!(
            ac.cache(area),
            LayerCache { background_dirty: true, data_dirty: false, overlay_dirty: false }
        );
    }
}

#[test]
fn navigation_without_data_changes_nothing() {
    let mut ac = AppContext::initialize();
    clean_all(&mut ac);
    assert_eq!(ac.display_next(), SampleUpdate::Keep);
    assert_eq!(ac.display_previous(), SampleUpdate::Keep);
    assert_eq!(ac.display_first(), SampleUpdate::Keep);
    assert_eq!(ac.display_last(), SampleUpdate::Keep);
    assert_eq!(ac.currently_displayed_index(), 0);
    assert_eq!(ac.key_press_event(KEY_RIGHT), Some(SampleUpdate::Keep));
    for area in ALL_AREAS {
        assert_eq!(
            ac.cache(area),
            LayerCache { background_dirty: false, data_dirty: false, overlay_dirty: false }
        );
    }
}

#[test]
fn load_data_sorts_and_shows_first() {
    let mut ac = AppContext::initialize();
    clean_all(&mut ac);
    let times = vec![vt(300), None, vt(100), vt(300), vt(200)];
    let r = ac.load_data(&times);
    assert_eq!(r.order, vec![1, 2, 4, 0, 3]);
    assert_eq!(r.load_id, 1);
    assert_eq!(r.sample_update, SampleUpdate::Keep);
    assert_eq!(ac.len(), 5);
    assert_eq!(ac.currently_displayed_index(), 0);
    assert_eq!(ac.load_calls(), 1);
    assert!(ac.plottable());
    assert_eq!(ac.get_sounding_for_display(), Some(0));
    for area in ALL_AREAS {
        assert_eq!(
            ac.cache(area),
            LayerCache { background_dirty: true, data_dirty: true, overlay_dirty: true }
        );
    }
    let r2 = ac.load_data(&vec![vt(5)]);
    assert_eq!(r2.load_id, 2);
    assert_eq!(r2.order, vec![0]);
}

#[test]
fn next_wraps_to_first_and_previous_to_last() {
    let mut ac = loaded(3);
    ac.display_next();
    assert_eq!(ac.currently_displayed_index(), 1);
    ac.display_next();
    assert_eq!(ac.currently_displayed_index(), 2);
    ac.display_next();
    assert_eq!(ac.currently_displayed_index(), 0);
    ac.display_previous();
    assert_eq!(ac.currently_displayed_index(), 2);
    ac.display_previous();
    assert_eq!(ac.currently_displayed_index(), 1);
}

#[test]
fn previous_undoes_next_on_concrete_states() {
    for n in 1..5usize {
        for start in 0..n {
            let mut ac = loaded(n);
            for _ in 0..start {
                ac.display_next();
            }
            assert_eq!(ac.currently_displayed_index(), start);
            ac.display_next();
            ac.display_previous();
            assert_eq!(ac.currently_displayed_index(), start);
            ac.display_previous();
            ac.display_next();
            assert_eq!(ac.currently_displayed_index(), start);
        }
    }
}

#[test]
fn n_steps_forward_come_back() {
    let n = 4usize;
    let mut ac = loaded(n);
    ac.display_next();
    for _ in 0..n {
        ac.display_next();
    }
    assert_eq!(ac.currently_displayed_index(), 1);
}

#[test]
fn first_and_last() {
    let mut ac = loaded(4);
    ac.display_last();
    assert_eq!(ac.currently_displayed_index(), 3);
    ac.display_first();
    assert_eq!(ac.currently_displayed_index(), 0);
}

#[test]
fn showing_a_sounding_marks_data_and_overlays() {
    let mut ac = loaded(3);
    clean_all(&mut ac);
    ac.display_next();
    for area in ALL_AREAS {
        assert_eq!(
            ac.cache(area),
            LayerCache { background_dirty: false, data_dirty: true, overlay_dirty: true }
        );
    }
}

#[test]
fn arrow_keys_step_through_soundings() {
    let mut ac = loaded(3);
    assert_eq!(ac.key_press_event(KEY_RIGHT), Some(SampleUpdate::Keep));
    assert_eq!(ac.currently_displayed_index(), 1);
    assert_eq!(ac.key_press_event(KEY_KP_RIGHT), Some(SampleUpdate::Keep));
    assert_eq!(ac.currently_displayed_index(), 2);
    assert_eq!(ac.key_press_event(KEY_LEFT), Some(SampleUpdate::Keep));
    assert_eq!(ac.currently_displayed_index(), 1);
    assert_eq!(ac.key_press_event(KEY_KP_LEFT), Some(SampleUpdate::Keep));
    assert_eq!(ac.currently_displayed_index(), 0);
    clean_all(&mut ac);
    assert_eq!(ac.key_press_event(0x61), None);
    assert_eq!(ac.currently_displayed_index(), 0);
    assert_eq!(
        ac.cache(DrawingArea::Cloud),
        LayerCache { background_dirty: false, data_dirty: false, overlay_dirty: false }
    );
}

#[test]
fn sounding_sample_is_interpolated_again() {
    let mut ac = loaded(3);
    ac.set_sample(Sample::Sounding { has_pressure: true });
    assert_eq!(ac.display_next(), SampleUpdate::Reinterpolate);
    assert_eq!(ac.get_sample(), Sample::Sounding { has_pressure: true });
    ac.apply_reinterpolation(Some(false));
    assert_eq!(ac.get_sample(), Sample::Sounding { has_pressure: false });
    assert_eq!(ac.display_next(), SampleUpdate::Clear);
    assert_eq!(ac.get_sample(), Sample::Empty);
    ac.set_sample(Sample::Sounding { has_pressure: true });
    ac.display_next();
    ac.apply_reinterpolation(None);
    assert_eq!(ac.get_sample(), Sample::Empty);
}

#[test]
fn fire_plume_sample_is_cleared_on_change() {
    let mut ac = loaded(2);
    ac.set_sample(Sample::FirePlume);
    assert_eq!(ac.get_sample(), Sample::FirePlume);
    assert_eq!(ac.display_previous(), SampleUpdate::Clear);
    assert_eq!(ac.get_sample(), Sample::Empty);
    assert_eq!(ac.display_previous(), SampleUpdate::Keep);
}

#[test]
fn load_reinterpolates_the_sample() {
    let mut ac = loaded(2);
    ac.set_sample(Sample::Sounding { has_pressure: true });
    let r = ac.load_data(&vec![vt(1), vt(2)]);
    assert_eq!(r.sample_update, SampleUpdate::Reinterpolate);
    let r = ac.load_data(&vec![]);
    assert_eq!(r.sample_update, SampleUpdate::Clear);
    assert_eq!(ac.get_sample(), Sample::Empty);
    assert_eq!(ac.get_sounding_for_display(), None);
}

#[test]
fn set_sample_marks_overlays() {
    let mut ac = loaded(2);
    clean_all(&mut ac);
    ac.set_sample(Sample::FirePlume);
    for area in ALL_AREAS {
        assert_eq!(
            ac.cache(area),
            LayerCache { background_dirty: false, data_dirty: false, overlay_dirty: true }
        );
    }
}

#[test]
fn zoom_acts_on_last_focus() {
    let mut ac = AppContext::initialize();
    clean_all(&mut ac);
    assert_eq!(ac.zoom_in(), ZoomableDrawingAreas::SkewT);
    ac.set_last_focus(ZoomableDrawingAreas::Hodo);
    assert_eq!(ac.last_focus(), ZoomableDrawingAreas::Hodo);
    clean_all(&mut ac);
    assert_eq!(ac.zoom_out(), ZoomableDrawingAreas::Hodo);
    for area in ALL_AREAS {
        assert_eq!(
            ac.cache(area),
            LayerCache { background_dirty: true, data_dirty: false, overlay_dirty: false }
        );
    }
    ac.set_last_focus(ZoomableDrawingAreas::FirePlumeEnergy);
    assert_eq!(ac.zoom_in(), ZoomableDrawingAreas::FirePlumeEnergy);
    ac.set_last_focus(ZoomableDrawingAreas::FirePlume);
    assert_eq!(ac.zoom_in(), ZoomableDrawingAreas::FirePlume);
}

#[test]
fn analyses_of_old_loads_are_discarded() {
    let mut ac = loaded(3);
    clean_all(&mut ac);
    assert_eq!(ac.loaded_analysis_arrived(0, 0), LoadedAction::Discard);
    assert_eq!(ac.loaded_analysis_arrived(1, 2), LoadedAction::Store);
    assert_eq!(
        ac.cache(DrawingArea::SkewT),
        LayerCache { background_dirty: false, data_dirty: false, overlay_dirty: false }
    );
    assert_eq!(ac.loaded_analysis_arrived(1, 0), LoadedAction::StoreAndRedraw);
    for area in ALL_AREAS {
        assert_eq!(
            ac.cache(area),
            LayerCache { background_dirty: false, data_dirty: true, overlay_dirty: false }
        );
    }
}
