//! Application state that is shared by every view: the list of soundings (by position), the one
//! currently displayed, the plot that last had the focus, the sample under the cursor and the
//! layered drawing caches of each plot.

use crate::ordering::{sort_by_valid_time, sorted_by_valid_time, ValidTime};
use vstd::prelude::*;

verus! {

/// GDK key value of the right arrow key.
pub const KEY_RIGHT: u32 = 0xff53;
/// GDK key value of the keypad right arrow key.
pub const KEY_KP_RIGHT: u32 = 0xff98;
/// GDK key value of the left arrow key.
pub const KEY_LEFT: u32 = 0xff51;
/// GDK key value of the keypad left arrow key.
pub const KEY_KP_LEFT: u32 = 0xff96;

/// The plots that can be zoomed with the zoom buttons.
#[derive(Clone, Copy, Debug, PartialEq, Eq, Structural)]
pub enum ZoomableDrawingAreas {
    SkewT,
    Hodo,
    FirePlume,
    FirePlumeEnergy,
}

/// Every plot that keeps a layered drawing cache.
#[derive(Clone, Copy, Debug, PartialEq, Eq, Structural)]
pub enum DrawingArea {
    Hodo,
    FirePlume,
    FirePlumeEnergy,
    SkewT,
    RhOmega,
    Cloud,
    WindSpeed,
}

/// Dirty flags of the three cached layers of one plot. A layer whose flag is set is drawn again
/// the next time the plot is painted, and the flag is then cleared.
#[derive(Clone, Copy, Debug, PartialEq, Eq, Structural)]
pub struct LayerCache {
    pub background_dirty: bool,
    pub data_dirty: bool,
    pub overlay_dirty: bool,
}

/// Which layers a paint of a plot draws again before it copies the caches to the screen.
#[derive(Clone, Copy, Debug, PartialEq, Eq, Structural)]
pub struct RedrawPlan {
    pub background: bool,
    pub data: bool,
    pub overlay: bool,
}

impl LayerCache {
    /// A fresh cache holds no drawing yet, so all three layers are dirty.
    pub fn new() -> (c: Self)
        ensures
            c.background_dirty && c.data_dirty && c.overlay_dirty,
    {
        LayerCache { background_dirty: true, data_dirty: true, overlay_dirty: true }
    }

    pub fn mark_background_dirty(&mut self)
        ensures
            *final(self) == (LayerCache { background_dirty: true, ..*old(self) }),
    {
        self.background_dirty = true;
    }

    pub fn mark_data_dirty(&mut self)
        ensures
            *final(self) == (LayerCache { data_dirty: true, ..*old(self) }),
    {
        self.data_dirty = true;
    }

    pub fn mark_overlay_dirty(&mut self)
        ensures
            *final(self) == (LayerCache { overlay_dirty: true, ..*old(self) }),
    {
        self.overlay_dirty = true;
    }

    /// Decides whether the background layer is drawn again, and clears its flag.
    pub fn draw_background_cached(&mut self) -> (redraw: bool)
        ensures
            redraw == old(self).background_dirty,
            *final(self) == (LayerCache { background_dirty: false, ..*old(self) }),
    {
        let redraw = self.background_dirty;
        self.background_dirty = false;
        redraw
    }

    /// Decides whether the data layer is drawn again, and clears its flag.
    pub fn draw_data_cached(&mut self) -> (redraw: bool)
        ensures
            redraw == old(self).data_dirty,
            *final(self) == (LayerCache { data_dirty: false, ..*old(self) }),
    {
        let redraw = self.data_dirty;
        self.data_dirty = false;
        redraw
    }

    /// Decides whether the overlay layer is drawn again, and clears its flag.
    pub fn draw_active_readout_cached(&mut self) -> (redraw: bool)
        ensures
            redraw == old(self).overlay_dirty,
            *final(self) == (LayerCache { overlay_dirty: false, ..*old(self) }),
    {
        let redraw = self.overlay_dirty;
        self.overlay_dirty = false;
        redraw
    }

    /// One paint of a plot: background, then data, then overlay, each drawn again only when dirty.
    /// Afterwards every layer is clean.
    pub fn draw_callback(&mut self) -> (plan: RedrawPlan)
        ensures
            plan == (RedrawPlan {
                background: old(self).background_dirty,
                data: old(self).data_dirty,
                overlay: old(self).overlay_dirty,
            }),
            !final(self).background_dirty && !final(self).data_dirty && !final(self).overlay_dirty,
    {
        let background = self.draw_background_cached();
        let data = self.draw_data_cached();
        let overlay = self.draw_active_readout_cached();
        RedrawPlan { background, data, overlay }
    }
}

/// What is known of the sample under the cursor: the library only needs to tell the kinds apart
/// and whether a sounding sample carries a pressure to interpolate at.
#[derive(Clone, Copy, Debug, PartialEq, Eq, Structural)]
pub enum Sample {
    Sounding { has_pressure: bool },
    FirePlume,
    Empty,
}

/// How the sample must follow a change of the displayed sounding.
#[derive(Clone, Copy, Debug, PartialEq, Eq, Structural)]
pub enum SampleUpdate {
    /// There was no sample; nothing to do.
    Keep,
    /// The sample no longer applies and has been removed.
    Clear,
    /// The newly displayed sounding must be interpolated at the sample's pressure; report the
    /// outcome with `apply_reinterpolation`.
    Reinterpolate,
}

/// What to do with an analysis that a background job finished.
#[derive(Clone, Copy, Debug, PartialEq, Eq, Structural)]
pub enum LoadedAction {
    /// It belongs to an older load and is thrown away.
    Discard,
    /// It replaces the stored analysis at its position.
    Store,
    /// It replaces the stored analysis, which is the one on display, so the views are redrawn.
    StoreAndRedraw,
}

/// Result of loading a new list of soundings.
pub struct LoadData {
    /// Positions of the given soundings in the order they are kept.
    pub order: Vec<usize>,
    /// Number of this load; background work on these soundings carries it.
    pub load_id: usize,
    /// How the sample follows the newly displayed first sounding.
    pub sample_update: SampleUpdate,
}

/// Mathematical model of `AppContext`.
pub ghost struct AppModel {
    pub len: nat,
    pub index: nat,
    pub load_calls: nat,
    pub last_focus: ZoomableDrawingAreas,
    pub sample: Sample,
    pub hodo: LayerCache,
    pub fire_plume: LayerCache,
    pub fire_plume_energy: LayerCache,
    pub skew_t: LayerCache,
    pub rh_omega: LayerCache,
    pub cloud: LayerCache,
    pub wind_speed: LayerCache,
}

impl AppModel {
    pub open spec fn cache(self, a: DrawingArea) -> LayerCache {
        match a {
            DrawingArea::Hodo => self.hodo,
            DrawingArea::FirePlume => self.fire_plume,
            DrawingArea::FirePlumeEnergy => self.fire_plume_energy,
            DrawingArea::SkewT => self.skew_t,
            DrawingArea::RhOmega => self.rh_omega,
            DrawingArea::Cloud => self.cloud,
            DrawingArea::WindSpeed => self.wind_speed,
        }
    }

    /// The displayed position is inside the list, or the list is empty and the position is 0.
    pub open spec fn wf(self) -> bool {
        self.index < self.len || (self.len == 0 && self.index == 0)
    }

    /// Everything but the caches is the same as in `before`.
    pub open spec fn same_except_caches(self, before: AppModel) -> bool {
        &&& self.len == before.len
        &&& self.index == before.index
        &&& self.load_calls == before.load_calls
        &&& self.last_focus == before.last_focus
        &&& self.sample == before.sample
    }

    /// Every cache has the chosen layers marked dirty, and no other flag changed.
    pub open spec fn layers_marked(self, before: AppModel, background: bool, data: bool, overlay: bool) -> bool {
        forall|a: DrawingArea| #[trigger] self.cache(a) == (LayerCache {
            background_dirty: before.cache(a).background_dirty || background,
            data_dirty: before.cache(a).data_dirty || data,
            overlay_dirty: before.cache(a).overlay_dirty || overlay,
        })
    }

    /// Where the sample goes once the displayed sounding has changed: a sounding sample with a
    /// pressure is interpolated again in the sounding now displayed, if there is one.
    pub open spec fn sample_update(self) -> SampleUpdate {
        match self.sample {
            Sample::Sounding { has_pressure } => if has_pressure && self.index < self.len {
                SampleUpdate::Reinterpolate
            } else {
                SampleUpdate::Clear
            },
            Sample::FirePlume => SampleUpdate::Clear,
            Sample::Empty => SampleUpdate::Keep,
        }
    }

    /// The sample once `sample_update` is applied (a sample that must be interpolated again stays
    /// until the outcome is reported).
    pub open spec fn sample_after_update(self) -> Sample {
        match self.sample_update() {
            SampleUpdate::Clear => Sample::Empty,
            _ => self.sample,
        }
    }

    /// `before` with the displayed position set to `idx`.
    pub open spec fn at_index(self, idx: nat) -> AppModel {
        AppModel { index: idx, ..self }
    }

    /// The effect of showing position `idx`: the index changes, the sample follows, and every
    /// data and overlay layer is marked dirty; nothing else changes.
    pub open spec fn shows(self, before: AppModel, idx: nat) -> bool {
        &&& self.index == idx
        &&& self.len == before.len
        &&& self.load_calls == before.load_calls
        &&& self.last_focus == before.last_focus
        &&& self.sample == before.at_index(idx).sample_after_update()
        &&& self.layers_marked(before, false, true, true)
    }

    /// Position after the displayed one, wrapping to the first.
    pub open spec fn next_index(self) -> nat {
        if self.index + 1 < self.len {
            self.index + 1
        } else {
            0
        }
    }

    /// Position before the displayed one, wrapping to the last.
    pub open spec fn previous_index(self) -> nat {
        if self.index > 0 {
            (self.index - 1) as nat
        } else {
            (self.len - 1) as nat
        }
    }
}

/// Application state shared by all views. The soundings themselves are kept by the caller, in
/// the order this state describes; the state only needs their number.
pub struct AppContext {
    len: usize,
    currently_displayed_index: usize,
    load_calls: usize,
    last_focus: ZoomableDrawingAreas,
    last_sample: Sample,
    hodo: LayerCache,
    fire_plume: LayerCache,
    fire_plume_energy: LayerCache,
    skew_t: LayerCache,
    rh_omega: LayerCache,
    cloud: LayerCache,
    wind_speed: LayerCache,
}

impl View for AppContext {
    type V = AppModel;

    closed spec fn view(&self) -> AppModel {
        AppModel {
            len: self.len as nat,
            index: self.currently_displayed_index as nat,
            load_calls: self.load_calls as nat,
            last_focus: self.last_focus,
            sample: self.last_sample,
            hodo: self.hodo,
            fire_plume: self.fire_plume,
            fire_plume_energy: self.fire_plume_energy,
            skew_t: self.skew_t,
            rh_omega: self.rh_omega,
            cloud: self.cloud,
            wind_speed: self.wind_speed,
        }
    }
}

impl AppContext {
    /// The state before any data is loaded: nothing to show, the skew-t has the focus and every
    /// cache must be drawn.
    pub fn initialize() -> (ac: Self)
        ensures
            ac@.wf(),
            ac@.len == 0,
            ac@.index == 0,
            ac@.load_calls == 0,
            ac@.last_focus == ZoomableDrawingAreas::SkewT,
            ac@.sample == Sample::Empty,
            forall|a: DrawingArea| #[trigger] ac@.cache(a) == (LayerCache {
                background_dirty: true,
                data_dirty: true,
                overlay_dirty: true,
            }),
    {
        let ac = AppContext {
            len: 0,
            currently_displayed_index: 0,
            load_calls: 0,
            last_focus: ZoomableDrawingAreas::SkewT,
            last_sample: Sample::Empty,
            hodo: LayerCache::new(),
            fire_plume: LayerCache::new(),
            fire_plume_energy: LayerCache::new(),
            skew_t: LayerCache::new(),
            rh_omega: LayerCache::new(),
            cloud: LayerCache::new(),
            wind_speed: LayerCache::new(),
        };
        assert forall|a: DrawingArea| #[trigger] ac@.cache(a) == (LayerCache {
            background_dirty: true,
            data_dirty: true,
            overlay_dirty: true,
        }) by {
            match a {
                DrawingArea::Hodo => {},
                DrawingArea::FirePlume => {},
                DrawingArea::FirePlumeEnergy => {},
                DrawingArea::SkewT => {},
                DrawingArea::RhOmega => {},
                DrawingArea::Cloud => {},
                DrawingArea::WindSpeed => {},
            }
        }
        ac
    }

    /// Number of soundings loaded.
    pub fn len(&self) -> (n: usize)
        ensures
            n == self@.len,
    {
        self.len
    }

    /// Position of the sounding on display.
    pub fn currently_displayed_index(&self) -> (i: usize)
        ensures
            i == self@.index,
    {
        self.currently_displayed_index
    }

    /// Number of loads so far; results of background work carry the number of their load.
    pub fn load_calls(&self) -> (n: usize)
        ensures
            n == self@.load_calls,
    {
        self.load_calls
    }

    /// The plot that last had the focus.
    pub fn last_focus(&self) -> (z: ZoomableDrawingAreas)
        ensures
            z == self@.last_focus,
    {
        self.last_focus
    }

    /// The kind of the sample under the cursor.
    pub fn get_sample(&self) -> (s: Sample)
        ensures
            s == self@.sample,
    {
        self.last_sample
    }

    /// The cache of one plot.
    pub fn cache(&self, area: DrawingArea) -> (c: LayerCache)
        ensures
            c == self@.cache(area),
    {
        match area {
            DrawingArea::Hodo => self.hodo,
            DrawingArea::FirePlume => self.fire_plume,
            DrawingArea::FirePlumeEnergy => self.fire_plume_energy,
            DrawingArea::SkewT => self.skew_t,
            DrawingArea::RhOmega => self.rh_omega,
            DrawingArea::Cloud => self.cloud,
            DrawingArea::WindSpeed => self.wind_speed,
        }
    }

    /// Marks the data layer of every plot dirty.
    pub fn mark_data_dirty(&mut self)
        ensures
            final(self)@.same_except_caches(old(self)@),
            final(self)@.layers_marked(old(self)@, false, true, false),
    {
        self.hodo.data_dirty = true;
        self.fire_plume.data_dirty = true;
        self.fire_plume_energy.data_dirty = true;
        self.skew_t.data_dirty = true;
        self.rh_omega.data_dirty = true;
        self.cloud.data_dirty = true;
        self.wind_speed.data_dirty = true;
        proof {
            lemma_marked_fieldwise(old(self)@, self@, false, true, false);
        }
    }

    /// Marks the overlay layer of every plot dirty.
    pub fn mark_overlay_dirty(&mut self)
        ensures
            final(self)@.same_except_caches(old(self)@),
            final(self)@.layers_marked(old(self)@, false, false, true),
    {
        self.hodo.overlay_dirty = true;
        self.fire_plume.overlay_dirty = true;
        self.fire_plume_energy.overlay_dirty = true;
        self.skew_t.overlay_dirty = true;
        self.rh_omega.overlay_dirty = true;
        self.cloud.overlay_dirty = true;
        self.wind_speed.overlay_dirty = true;
        proof {
            lemma_marked_fieldwise(old(self)@, self@, false, false, true);
        }
    }

    /// Marks the background layer of every plot dirty.
    pub fn mark_background_dirty(&mut self)
        ensures
            final(self)@.same_except_caches(old(self)@),
            final(self)@.layers_marked(old(self)@, true, false, false),
    {
        self.hodo.background_dirty = true;
        self.fire_plume.background_dirty = true;
        self.fire_plume_energy.background_dirty = true;
        self.skew_t.background_dirty = true;
        self.rh_omega.background_dirty = true;
        self.cloud.background_dirty = true;
        self.wind_speed.background_dirty = true;
        proof {
            lemma_marked_fieldwise(old(self)@, self@, true, false, false);
        }
    }

    /// Paints one plot: which of its layers are drawn again. Afterwards all its layers are clean
    /// and the other plots are untouched.
    pub fn draw_callback(&mut self, area: DrawingArea) -> (plan: RedrawPlan)
        ensures
            final(self)@.same_except_caches(old(self)@),
            plan == (RedrawPlan {
                background: old(self)@.cache(area).background_dirty,
                data: old(self)@.cache(area).data_dirty,
                overlay: old(self)@.cache(area).overlay_dirty,
            }),
            final(self)@.cache(area) == (LayerCache {
                background_dirty: false,
                data_dirty: false,
                overlay_dirty: false,
            }),
            forall|a: DrawingArea| a != area ==> #[trigger] final(self)@.cache(a) == old(self)@.cache(a),
    {
        match area {
            DrawingArea::Hodo => self.hodo.draw_callback(),
            DrawingArea::FirePlume => self.fire_plume.draw_callback(),
            DrawingArea::FirePlumeEnergy => self.fire_plume_energy.draw_callback(),
            DrawingArea::SkewT => self.skew_t.draw_callback(),
            DrawingArea::RhOmega => self.rh_omega.draw_callback(),
            DrawingArea::Cloud => self.cloud.draw_callback(),
            DrawingArea::WindSpeed => self.wind_speed.draw_callback(),
        }
    }

    /// Is there any data to plot?
    pub fn plottable(&self) -> (b: bool)
        ensures
            b == (self@.len > 0),
    {
        self.len > 0
    }

    /// Makes the sample follow a change of the displayed sounding, and marks the overlays dirty.
    fn update_sample(&mut self) -> (u: SampleUpdate)
        ensures
            u == old(self)@.sample_update(),
            final(self)@.sample == old(self)@.sample_after_update(),
            final(self)@.len == old(self)@.len,
            final(self)@.index == old(self)@.index,
            final(self)@.load_calls == old(self)@.load_calls,
            final(self)@.last_focus == old(self)@.last_focus,
            final(self)@.layers_marked(old(self)@, false, false, true),
    {
        let u = match self.last_sample {
            Sample::Sounding { has_pressure } => if has_pressure && self.currently_displayed_index < self.len {
                SampleUpdate::Reinterpolate
            } else {
                SampleUpdate::Clear
            },
            Sample::FirePlume => SampleUpdate::Clear,
            Sample::Empty => SampleUpdate::Keep,
        };
        if let SampleUpdate::Clear = u {
            self.last_sample = Sample::Empty;
        }
        self.mark_overlay_dirty();
        u
    }

    /// Shows the sounding at position `idx`: the sample follows and the data and overlay layers
    /// of every plot are marked dirty.
    fn set_currently_displayed(&mut self, idx: usize) -> (u: SampleUpdate)
        ensures
            u == old(self)@.at_index(idx as nat).sample_update(),
            final(self)@.shows(old(self)@, idx as nat),
    {
        self.currently_displayed_index = idx;
        let ghost mid = self@;
        assert(mid == old(self)@.at_index(idx as nat));
        let u = self.update_sample();
        let ghost mid2 = self@;
        self.mark_data_dirty();
        assert forall|a: DrawingArea| #[trigger] self@.cache(a) == (LayerCache {
            background_dirty: old(self)@.cache(a).background_dirty || false,
            data_dirty: old(self)@.cache(a).data_dirty || true,
            overlay_dirty: old(self)@.cache(a).overlay_dirty || true,
        }) by {
            assert(mid.cache(a) == old(self)@.cache(a));
            assert(mid2.cache(a) == mark_cache_spec(mid.cache(a), false, false, true));
            assert(self@.cache(a) == mark_cache_spec(mid2.cache(a), false, true, false));
        }
        u
    }

    /// Shows the next sounding, or the first after the last. Without data nothing changes.
    pub fn display_next(&mut self) -> (u: SampleUpdate)
        requires
            old(self)@.wf(),
        ensures
            final(self)@.wf(),
            old(self)@.len > 0 ==> u == old(self)@.at_index(old(self)@.next_index()).sample_update() && final(self)@.shows(
                old(self)@,
                old(self)@.next_index(),
            ),
            old(self)@.len == 0 ==> u == SampleUpdate::Keep && final(self)@ == old(self)@,
    {
        if self.plottable() {
            let mut curr_index = self.currently_displayed_index;
            if curr_index < self.len - 1 {
                curr_index += 1;
            } else {
                curr_index = 0;
            }
            self.set_currently_displayed(curr_index)
        } else {
            SampleUpdate::Keep
        }
    }

    /// Shows the previous sounding, or the last before the first. Without data nothing changes.
    pub fn display_previous(&mut self) -> (u: SampleUpdate)
        requires
            old(self)@.wf(),
        ensures
            final(self)@.wf(),
            old(self)@.len > 0 ==> u == old(self)@.at_index(old(self)@.previous_index()).sample_update() && final(self)@.shows(
                old(self)@,
                old(self)@.previous_index(),
            ),
            old(self)@.len == 0 ==> u == SampleUpdate::Keep && final(self)@ == old(self)@,
    {
        if self.plottable() {
            let mut curr_index = self.currently_displayed_index;
            if curr_index > 0 {
                curr_index -= 1;
            } else {
                curr_index = self.len - 1;
            }
            self.set_currently_displayed(curr_index)
        } else {
            SampleUpdate::Keep
        }
    }

    /// Shows the first sounding of the series. Without data nothing changes.
    pub fn display_first(&mut self) -> (u: SampleUpdate)
        requires
            old(self)@.wf(),
        ensures
            final(self)@.wf(),
            old(self)@.len > 0 ==> u == old(self)@.at_index(0).sample_update() && final(self)@.shows(old(self)@, 0),
            old(self)@.len == 0 ==> u == SampleUpdate::Keep && final(self)@ == old(self)@,
    {
        if self.plottable() {
            self.set_currently_displayed(0)
        } else {
            SampleUpdate::Keep
        }
    }

    /// Shows the last sounding of the series. Without data nothing changes.
    pub fn display_last(&mut self) -> (u: SampleUpdate)
        requires
            old(self)@.wf(),
        ensures
            final(self)@.wf(),
            old(self)@.len > 0 ==> u == old(self)@.at_index((old(self)@.len - 1) as nat).sample_update() && final(self)@.shows(
                old(self)@,
                (old(self)@.len - 1) as nat,
            ),
            old(self)@.len == 0 ==> u == SampleUpdate::Keep && final(self)@ == old(self)@,
    {
        if self.plottable() {
            let last_index = self.len - 1;
            self.set_currently_displayed(last_index)
        } else {
            SampleUpdate::Keep
        }
    }

    /// Remembers the plot that last had the focus, the one the zoom buttons act on.
    pub fn set_last_focus(&mut self, zoomable: ZoomableDrawingAreas)
        ensures
            final(self)@ == (AppModel { last_focus: zoomable, ..old(self)@ }),
    {
        self.last_focus = zoomable;
    }

    /// Zoom button: the plot to zoom in is the one that last had the focus; every background is
    /// marked dirty.
    pub fn zoom_in(&mut self) -> (target: ZoomableDrawingAreas)
        ensures
            target == old(self)@.last_focus,
            final(self)@.same_except_caches(old(self)@),
            final(self)@.layers_marked(old(self)@, true, false, false),
    {
        let target = self.last_focus;
        self.mark_background_dirty();
        target
    }

    /// Zoom button: the plot to zoom out is the one that last had the focus; every background is
    /// marked dirty.
    pub fn zoom_out(&mut self) -> (target: ZoomableDrawingAreas)
        ensures
            target == old(self)@.last_focus,
            final(self)@.same_except_caches(old(self)@),
            final(self)@.layers_marked(old(self)@, true, false, false),
    {
        let target = self.last_focus;
        self.mark_background_dirty();
        target
    }

    /// Replaces the sample under the cursor and marks every overlay dirty.
    pub fn set_sample(&mut self, sample: Sample)
        ensures
            final(self)@.sample == sample,
            final(self)@.len == old(self)@.len,
            final(self)@.index == old(self)@.index,
            final(self)@.load_calls == old(self)@.load_calls,
            final(self)@.last_focus == old(self)@.last_focus,
            final(self)@.layers_marked(old(self)@, false, false, true),
    {
        self.last_sample = sample;
        self.mark_overlay_dirty();
    }

    /// Reports the outcome of interpolating the displayed sounding at the sample's pressure
    /// (`Some` with whether the new sample has a pressure, `None` when it failed).
    pub fn apply_reinterpolation(&mut self, interpolated: Option<bool>)
        ensures
            final(self)@ == (AppModel {
                sample: match interpolated {
                    Some(has_pressure) => Sample::Sounding { has_pressure },
                    None => Sample::Empty,
                },
                ..old(self)@
            }),
    {
        self.last_sample = match interpolated {
            Some(has_pressure) => Sample::Sounding { has_pressure },
            None => Sample::Empty,
        };
    }

    /// Loads a new list of soundings, given their valid times. Returns the order in which to
    /// keep them (stable, by valid time, a missing one first), the number this load carries for
    /// the background work on each sounding, and how the sample follows. The first sounding is
    /// shown and every layer of every plot is marked dirty.
    pub fn load_data(&mut self, valid_times: &Vec<Option<ValidTime>>) -> (r: LoadData)
        requires
            old(self)@.load_calls < usize::MAX,
        ensures
            sorted_by_valid_time(valid_times@, r.order@),
            r.load_id == old(self)@.load_calls + 1,
            final(self)@.wf(),
            final(self)@.len == valid_times@.len(),
            final(self)@.index == 0,
            final(self)@.load_calls == old(self)@.load_calls + 1,
            final(self)@.last_focus == old(self)@.last_focus,
            r.sample_update == (AppModel { len: valid_times@.len(), ..old(self)@ }).at_index(0).sample_update(),
            final(self)@.sample == (AppModel { len: valid_times@.len(), ..old(self)@ }).at_index(0).sample_after_update(),
            final(self)@.layers_marked(old(self)@, true, true, true),
    {
        let order = sort_by_valid_time(valid_times);
        self.len = valid_times.len();
        self.currently_displayed_index = 0;
        let ghost mid = self@;
        let sample_update = self.set_currently_displayed(0);
        let ghost mid2 = self@;
        self.mark_background_dirty();
        let ghost mid3 = self@;
        self.load_calls = self.load_calls + 1;
        proof {
            assert forall|a: DrawingArea| #[trigger] self@.cache(a) == (LayerCache {
                background_dirty: old(self)@.cache(a).background_dirty || true,
                data_dirty: old(self)@.cache(a).data_dirty || true,
                overlay_dirty: old(self)@.cache(a).overlay_dirty || true,
            }) by {
                assert(mid.cache(a) == old(self)@.cache(a));
                assert(mid2.cache(a) == mark_cache_spec(mid.cache(a), false, true, true));
                assert(mid3.cache(a) == mark_cache_spec(mid2.cache(a), true, false, false));
                assert(self@.cache(a) == mid3.cache(a));
            }
            assert(mid.at_index(0) == mid);
        }
        LoadData { order, load_id: self.load_calls, sample_update }
    }

    /// A background job of load `loaded_on` finished the analysis at position `i`. It is kept
    /// only if it belongs to the latest load; if it is the one on display, the data layers are
    /// marked dirty so the views show it.
    pub fn loaded_analysis_arrived(&mut self, loaded_on: usize, i: usize) -> (action: LoadedAction)
        ensures
            loaded_on != old(self)@.load_calls ==> action == LoadedAction::Discard && final(self)@ == old(self)@,
            loaded_on == old(self)@.load_calls && i != old(self)@.index ==> action == LoadedAction::Store
                && final(self)@ == old(self)@,
            loaded_on == old(self)@.load_calls && i == old(self)@.index ==> action
                == LoadedAction::StoreAndRedraw && final(self)@.same_except_caches(old(self)@)
                && final(self)@.layers_marked(old(self)@, false, true, false),
    {
        if loaded_on == self.load_calls {
            if self.currently_displayed_index == i {
                self.mark_data_dirty();
                LoadedAction::StoreAndRedraw
            } else {
                LoadedAction::Store
            }
        } else {
            LoadedAction::Discard
        }
    }

    /// Arrow keys step through the soundings: right (or keypad right) shows the next one, left
    /// (or keypad left) the previous one. Returns how the sample follows when the key was used,
    /// `None` when the key is left to other handlers.
    pub fn key_press_event(&mut self, keyval: u32) -> (r: Option<SampleUpdate>)
        requires
            old(self)@.wf(),
        ensures
            final(self)@.wf(),
            (keyval == KEY_RIGHT || keyval == KEY_KP_RIGHT) && old(self)@.len > 0 ==> r == Some(
                old(self)@.at_index(old(self)@.next_index()).sample_update(),
            ) && final(self)@.shows(old(self)@, old(self)@.next_index()),
            (keyval == KEY_LEFT || keyval == KEY_KP_LEFT) && old(self)@.len > 0 ==> r == Some(
                old(self)@.at_index(old(self)@.previous_index()).sample_update(),
            ) && final(self)@.shows(old(self)@, old(self)@.previous_index()),
            (keyval == KEY_RIGHT || keyval == KEY_KP_RIGHT || keyval == KEY_LEFT || keyval == KEY_KP_LEFT)
                && old(self)@.len == 0 ==> r == Some(SampleUpdate::Keep) && final(self)@ == old(self)@,
            !(keyval == KEY_RIGHT || keyval == KEY_KP_RIGHT || keyval == KEY_LEFT || keyval == KEY_KP_LEFT)
                ==> r.is_none() && final(self)@ == old(self)@,
    {
        if keyval == KEY_KP_RIGHT || keyval == KEY_RIGHT {
            Some(self.display_next())
        } else if keyval == KEY_KP_LEFT || keyval == KEY_LEFT {
            Some(self.display_previous())
        } else {
            None
        }
    }

    /// Position of the sounding to draw, if there is one.
    pub fn get_sounding_for_display(&self) -> (r: Option<usize>)
        ensures
            r == (if self@.index < self@.len {
                Some(self@.index as usize)
            } else {
                None::<usize>
            }),
    {
        if self.currently_displayed_index < self.len {
            Some(self.currently_displayed_index)
        } else {
            None
        }
    }
}

/// Marking every cache field by field marks every plot's cache.
proof fn lemma_marked_fieldwise(before: AppModel, after: AppModel, background: bool, data: bool, overlay: bool)
    requires
        after.hodo == mark_cache_spec(before.hodo, background, data, overlay),
        after.fire_plume == mark_cache_spec(before.fire_plume, background, data, overlay),
        after.fire_plume_energy == mark_cache_spec(before.fire_plume_energy, background, data, overlay),
        after.skew_t == mark_cache_spec(before.skew_t, background, data, overlay),
        after.rh_omega == mark_cache_spec(before.rh_omega, background, data, overlay),
        after.cloud == mark_cache_spec(before.cloud, background, data, overlay),
        after.wind_speed == mark_cache_spec(before.wind_speed, background, data, overlay),
    ensures
        after.layers_marked(before, background, data, overlay),
{
    assert forall|a: DrawingArea| #[trigger] after.cache(a) == mark_cache_spec(before.cache(a), background, data, overlay) by {
        match a {
            DrawingArea::Hodo => {},
            DrawingArea::FirePlume => {},
            DrawingArea::FirePlumeEnergy => {},
            DrawingArea::SkewT => {},
            DrawingArea::RhOmega => {},
            DrawingArea::Cloud => {},
            DrawingArea::WindSpeed => {},
        }
    }
}

/// Stepping forward through the soundings advances the position by one modulo their number, so
/// `len` steps come back to the start.
pub proof fn lemma_next_index_is_successor(m: AppModel)
    requires
        m.wf(),
        m.len > 0,
    ensures
        m.next_index() == ((m.index + 1) as int) % (m.len as int),
        m.next_index() < m.len,
{
    if m.index + 1 < m.len {
        vstd::arithmetic::div_mod::lemma_small_mod((m.index + 1) as nat, m.len);
    } else {
        vstd::arithmetic::div_mod::lemma_mod_self_0(m.len as int);
    }
}

/// Stepping backward moves the position back by one modulo the number of soundings.
pub proof fn lemma_previous_index_is_predecessor(m: AppModel)
    requires
        m.wf(),
        m.len > 0,
    ensures
        m.previous_index() == ((m.index + m.len - 1) as int) % (m.len as int),
        m.previous_index() < m.len,
{
    if m.index > 0 {
        vstd::arithmetic::div_mod::lemma_mod_add_multiples_vanish((m.index - 1) as int, m.len as int);
        vstd::arithmetic::div_mod::lemma_small_mod((m.index - 1) as nat, m.len);
    } else {
        vstd::arithmetic::div_mod::lemma_small_mod((m.len - 1) as nat, m.len);
    }
}

/// Showing the previous sounding undoes showing the next one, and the other way round.
pub proof fn lemma_previous_undoes_next(m: AppModel)
    requires
        m.wf(),
        m.len > 0,
    ensures
        m.at_index(m.next_index()).previous_index() == m.index,
        m.at_index(m.previous_index()).next_index() == m.index,
{
}

/// The sample follows the newly shown sounding: showing any existing position `idx` (the last
/// one included) interpolates a sounding sample that has a pressure again in that sounding and
/// keeps it until the outcome is reported; a sounding sample without a pressure and a fire plume
/// sample are cleared; no sample stays no sample. Showing a position past the end clears a
/// sounding sample.
pub proof fn lemma_sample_follows_shown_sounding(m: AppModel, idx: nat)
    ensures
        idx < m.len && m.sample == (Sample::Sounding { has_pressure: true }) ==> m.at_index(idx).sample_update()
            == SampleUpdate::Reinterpolate && m.at_index(idx).sample_after_update() == m.sample,
        idx >= m.len && m.sample == (Sample::Sounding { has_pressure: true }) ==> m.at_index(idx).sample_update()
            == SampleUpdate::Clear && m.at_index(idx).sample_after_update() == Sample::Empty,
        m.sample == (Sample::Sounding { has_pressure: false }) ==> m.at_index(idx).sample_update()
            == SampleUpdate::Clear && m.at_index(idx).sample_after_update() == Sample::Empty,
        m.sample == Sample::FirePlume ==> m.at_index(idx).sample_update() == SampleUpdate::Clear
            && m.at_index(idx).sample_after_update() == Sample::Empty,
        m.sample == Sample::Empty ==> m.at_index(idx).sample_update() == SampleUpdate::Keep
            && m.at_index(idx).sample_after_update() == Sample::Empty,
{
}

/// Background results of a load are thrown away once a later load has started, however many
/// loads follow: a load hands out the number of loads so far (`load_data` returns it and every
/// other operation keeps the count), the count only grows, and `loaded_analysis_arrived` keeps
/// only results tagged with the current count. So a result tagged with the number of the load
/// that produced `first` is discarded in any later state `latest` whose count is higher, and
/// the state is left as it was.
pub proof fn lemma_stale_results_discarded(first: AppModel, latest: AppModel, load_id: nat)
    requires
        load_id == first.load_calls,
        latest.load_calls > first.load_calls,
    ensures
        load_id != latest.load_calls,
{
}

/// The views stay in step: once a layer is marked dirty on every plot (a new sounding shown marks
/// data and overlays, a new sample marks overlays, a zoom marks backgrounds), the next paint of
/// each plot draws that layer again, whatever the plot had drawn before.
pub proof fn lemma_marked_layers_are_redrawn(
    before: AppModel,
    after: AppModel,
    background: bool,
    data: bool,
    overlay: bool,
    a: DrawingArea,
)
    requires
        after.layers_marked(before, background, data, overlay),
    ensures
        background ==> after.cache(a).background_dirty,
        data ==> after.cache(a).data_dirty,
        overlay ==> after.cache(a).overlay_dirty,
        before.cache(a).background_dirty ==> after.cache(a).background_dirty,
        before.cache(a).data_dirty ==> after.cache(a).data_dirty,
        before.cache(a).overlay_dirty ==> after.cache(a).overlay_dirty,
{
    assert(after.cache(a) == mark_cache_spec(before.cache(a), background, data, overlay));
}

/// The cache `c` with the chosen layers marked dirty.
pub open spec fn mark_cache_spec(c: LayerCache, background: bool, data: bool, overlay: bool) -> LayerCache {
    LayerCache {
        background_dirty: c.background_dirty || background,
        data_dirty: c.data_dirty || data,
        overlay_dirty: c.overlay_dirty || overlay,
    }
}

} // verus!
