use sonde::config::{highlight_parcel, str_equal, str_starts_with, HelicityType, ParcelType, StormMotionType};

fn lines(v: &[&str]) -> Vec<String> {
    v.iter().map(|s| s.to_string()).collect()
}

#[test]
fn string_equality_and_prefix() {
    assert!(str_equal("effective", "effective"));
    assert!(!str_equal("effective", "effectiv"));
    assert!(!str_equal("left", "right"));
    assert!(str_equal("", ""));
    assert!(str_starts_with("Surface CAPE", "Surface"));
    assert!(str_starts_with("Most", "Most"));
    assert!(!str_starts_with("Mos", "Most"));
    assert!(!str_starts_with("Mixed", "Most"));
    assert!(str_starts_with("anything", ""));
}

#[test]
fn helicity_action_states() {
    assert_eq!(HelicityType::SurfaceTo3km.action_state(), "sfc_to_3km");
    assert_eq!(HelicityType::Effective.action_state(), "effective");
    assert_eq!(HelicityType::from_action_state("sfc_to_3km"), HelicityType::SurfaceTo3km);
    assert_eq!(HelicityType::from_action_state("effective"), HelicityType::Effective);
}

#[test]
fn storm_motion_action_states() {
    assert_eq!(StormMotionType::RightMover.action_state(), "right");
    assert_eq!(StormMotionType::LeftMover.action_state(), "left");
    assert_eq!(StormMotionType::from_action_state("right"), StormMotionType::RightMover);
    assert_eq!(StormMotionType::from_action_state("left"), StormMotionType::LeftMover);
}

#[test]
fn action_state_round_trip() {
    for h in [HelicityType::SurfaceTo3km, HelicityType::Effective] {
        assert_eq!(HelicityType::from_action_state(h.action_state()), h);
    }
    for s in [StormMotionType::RightMover, StormMotionType::LeftMover] {
        assert_eq!(StormMotionType::from_action_state(s.action_state()), s);
    }
}

#[test]
fn parcel_labels() {
    assert_eq!(ParcelType::Surface.index_label(), "Surface");
    assert_eq!(ParcelType::MixedLayer.index_label(), "Mixed");
    assert_eq!(ParcelType::MostUnstable.index_label(), "Most");
    assert_eq!(ParcelType::Effective.index_label(), "Effective");
    assert_eq!(ParcelType::Convective.index_label(), "Convective");
    let all = [
        ParcelType::Surface,
        ParcelType::MixedLayer,
        ParcelType::MostUnstable,
        ParcelType::Effective,
        ParcelType::Convective,
    ];
    for p in all {
        for q in all {
            if p != q {
                assert!(!p.index_label().starts_with(q.index_label()));
            }
        }
    }
}

#[test]
fn highlight_lines_of_the_chosen_parcel() {
    let table = lines(&[
        "Parcel        CAPE   CIN",
        "Surface       1200   -30",
        "Mixed Layer    900   -50",
        "Most Unstable 1500   -10",
        "Effective     1100   -20",
        "Convective    1000   -40",
        "Surface LI      -4",
    ]);
    assert_eq!(highlight_parcel(&table, ParcelType::Surface, true), vec![1, 6]);
    assert_eq!(highlight_parcel(&table, ParcelType::MixedLayer, true), vec![2]);
    assert_eq!(highlight_parcel(&table, ParcelType::MostUnstable, true), vec![3]);
    assert_eq!(highlight_parcel(&table, ParcelType::Effective, true), vec![4]);
    assert_eq!(highlight_parcel(&table, ParcelType::Convective, true), vec![5]);
}

#[test]
fn no_highlight_when_profiles_hidden() {
    let table = lines(&["Surface 1", "Surface 2"]);
    assert_eq!(highlight_parcel(&table, ParcelType::Surface, false), Vec::<usize>::new());
    assert_eq!(highlight_parcel(&vec![], ParcelType::Surface, true), Vec::<usize>::new());
}
