use device_history::choices::{ActiveTab, SortMode, Theme};

#[test]
fn theme_labels() {
    assert_eq!(Theme::Neon.label(), "Neon");
    assert_eq!(Theme::Light.label(), "Light");
    assert_eq!(Theme::Mids.label(), "Mids");
}

#[test]
fn theme_is_read_back_from_its_label() {
    for t in [Theme::Neon, Theme::Light, Theme::Mids] {
        assert_eq!(Theme::from_label(t.label()), t);
    }
    assert_eq!(Theme::from_label("light"), Theme::Neon);
    assert_eq!(Theme::from_label(""), Theme::Neon);
    assert_eq!(Theme::from_label("Dark"), Theme::Neon);
}

#[test]
fn tab_labels_and_keys() {
    assert_eq!(ActiveTab::Monitor.label(), "Monitor");
    assert_eq!(ActiveTab::KnownDevices.label(), "Known Devices");
    assert_eq!(ActiveTab::Monitor.save_key(), "Monitor");
    assert_eq!(ActiveTab::KnownDevices.save_key(), "KnownDevices");
}

#[test]
fn tab_is_read_back_from_its_key() {
    for t in [ActiveTab::Monitor, ActiveTab::KnownDevices] {
        assert_eq!(ActiveTab::from_label(t.save_key()), t);
    }
    assert_eq!(ActiveTab::from_label("Known Devices"), ActiveTab::Monitor);
    assert_eq!(ActiveTab::from_label("anything"), ActiveTab::Monitor);
}

#[test]
fn sort_mode_labels() {
    assert_eq!(SortMode::Status.label(), "Status");
    assert_eq!(SortMode::Name.label(), "Name");
    assert_eq!(SortMode::LastSeen.label(), "Last Seen");
    assert_eq!(SortMode::TimesSeen.label(), "Times Seen");
    assert_eq!(SortMode::FirstSeen.label(), "First Seen");
}
