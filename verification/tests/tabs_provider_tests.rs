use sonde::provider::{
    provider_data_order, str_le,
    provider_wx_symbol_code, ProviderWeather, FREEZING_RAIN_CODE, ICE_PELLETS_CODE, RAIN_CODE, SNOW_CODE,
};
use sonde::tabs::{layout_tabs_window, restore_tabs, save_tabs, saved_page, tab_id, tab_label, tab_position, NUM_TABS};

fn ids(v: &[&str]) -> Vec<String> {
    v.iter().map(|s| s.to_string()).collect()
}

#[test]
fn tab_ids_and_labels() {
    assert_eq!(NUM_TABS, 8);
    assert_eq!(tab_id(0), "skew_t");
    assert_eq!(tab_label(0), "Skew-T");
    assert_eq!(tab_id(1), "hodograph_area");
    assert_eq!(tab_label(1), "Hodograph");
    assert_eq!(tab_id(7), "provider_data_text_container");
    assert_eq!(tab_label(7), "Provider Data");
    for i in 0..NUM_TABS {
        assert_eq!(tab_position(tab_id(i)), Some(i));
    }
    assert_eq!(tab_position("control_area"), Some(4));
    assert_eq!(tab_position("no_such_tab"), None);
    assert_eq!(tab_position(""), None);
}

#[test]
fn restore_moves_named_tabs_in_order() {
    let mut target: Vec<usize> = vec![3];
    let mut other: Vec<usize> = vec![0, 1, 2];
    restore_tabs(&ids(&["hodograph_area", "bogus", "skew_t", "text_area_container"]), &mut target, &mut other);
    assert_eq!(target, vec![1, 0, 3]);
    assert_eq!(other, vec![2]);
}

#[test]
fn restore_adds_tabs_held_by_neither_notebook() {
    let mut target: Vec<usize> = vec![];
    let mut other: Vec<usize> = vec![];
    restore_tabs(&ids(&["control_area", "skew_t"]), &mut target, &mut other);
    assert_eq!(target, vec![4, 0]);
    assert!(other.is_empty());
}

#[test]
fn save_then_restore_gives_notebook_back() {
    let notebook: Vec<usize> = vec![5, 2, 7, 0];
    let saved = save_tabs(&notebook);
    assert_eq!(
        saved,
        ids(&["profiles_area_container", "fire_plume_container", "provider_data_text_container", "skew_t"])
    );
    let mut target: Vec<usize> = vec![];
    let mut other: Vec<usize> = vec![];
    restore_tabs(&saved, &mut target, &mut other);
    assert_eq!(target, notebook);
}

#[test]
fn layout_window_restores_both_notebooks() {
    let mut left: Vec<usize> = vec![0, 1, 2, 3, 4, 5, 6, 7];
    let mut right: Vec<usize> = vec![];
    let restored = layout_tabs_window(
        &ids(&["skew_t", "text_area_container"]),
        &ids(&["hodograph_area", "indexes_scrolled_window"]),
        &mut left,
        &mut right,
    );
    assert!(restored);
    assert_eq!(right, vec![1, 6]);
    assert_eq!(left, vec![2, 4, 5, 7, 0, 3]);
}

#[test]
fn layout_window_without_saved_tabs() {
    let mut left: Vec<usize> = vec![0, 1];
    let mut right: Vec<usize> = vec![2];
    assert!(!layout_tabs_window(&vec![], &vec![], &mut left, &mut right));
    assert_eq!(left, vec![0, 1]);
    assert_eq!(right, vec![2]);
}

#[test]
fn saved_page_numbers() {
    assert_eq!(saved_page(Some(3)), 3);
    assert_eq!(saved_page(Some(0)), 0);
    assert_eq!(saved_page(None), 0);
}

fn weather(code: Option<u8>, rain: bool, snow: bool, fzra: bool, ip: bool) -> ProviderWeather {
    ProviderWeather { wx_symbol_code: code, rain, snow, freezing_rain: fzra, ice_pellets: ip }
}

#[test]
fn provider_symbol_code() {
    assert_eq!(provider_wx_symbol_code(weather(Some(5), true, true, true, true)), 5);
    assert_eq!(provider_wx_symbol_code(weather(None, true, true, false, false)), RAIN_CODE);
    assert_eq!(provider_wx_symbol_code(weather(None, false, true, true, false)), SNOW_CODE);
    assert_eq!(provider_wx_symbol_code(weather(None, false, false, true, true)), FREEZING_RAIN_CODE);
    assert_eq!(provider_wx_symbol_code(weather(None, false, false, false, true)), ICE_PELLETS_CODE);
    assert_eq!(provider_wx_symbol_code(weather(None, false, false, false, false)), 0);
    assert_eq!((RAIN_CODE, SNOW_CODE, FREEZING_RAIN_CODE, ICE_PELLETS_CODE), (60, 70, 66, 79));
}

#[test]
fn str_le_is_the_order_of_str() {
    let words = ["", "a", "ab", "b", "B", "PrecipTypeRain", "PrecipTypeSnow", "Precip", "é", "z"];
    for a in words {
        for b in words {
            assert_eq!(str_le(a, b), a <= b, "{} <= {}", a, b);
        }
    }
}

#[test]
fn provider_data_listed_by_name() {
    let names = ids(&["WxSymbolCode", "PrecipTypeSnow", "Precipitation1HrMm", "PrecipTypeRain", "ConvectivePrecip1HrMm"]);
    let order = provider_data_order(&names);
    assert_eq!(order, vec![4, 3, 1, 2, 0]);
    let listed: Vec<&str> = order.iter().map(|&i| names[i].as_str()).collect();
    let mut sorted: Vec<&str> = names.iter().map(|s| s.as_str()).collect();
    sorted.sort();
    assert_eq!(listed, sorted);
    assert_eq!(provider_data_order(&vec![]), Vec::<usize>::new());
    assert_eq!(provider_data_order(&ids(&["b", "a", "b", "a"])), vec![1, 3, 0, 2]);
}
