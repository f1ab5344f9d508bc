//! The choices of the user interface that are stored by name: theme, tab and
//! sort order.

use crate::text::same_text;
use vstd::prelude::*;

verus! {

/// The colour theme.
#[derive(Debug, Clone, Copy, PartialEq, Eq, Structural)]
pub enum Theme {
    Neon,
    Light,
    Mids,
}

/// The tab that is shown.
#[derive(Debug, Clone, Copy, PartialEq, Eq, Structural)]
pub enum ActiveTab {
    Monitor,
    KnownDevices,
}

/// The order in which known devices are listed.
#[derive(Debug, Clone, Copy, PartialEq, Eq, Structural)]
pub enum SortMode {
    Status,
    Name,
    LastSeen,
    TimesSeen,
    FirstSeen,
}

impl Theme {
    /// The name under which the theme is shown and stored.
    pub open spec fn label_text(self) -> Seq<char> {
        match self {
            Theme::Neon => "Neon"@,
            Theme::Light => "Light"@,
            Theme::Mids => "Mids"@,
        }
    }

    /// The theme that a stored name stands for; an unknown name gives the
    /// default theme.
    pub open spec fn of_label(s: Seq<char>) -> Theme {
        if s == "Light"@ {
            Theme::Light
        } else if s == "Mids"@ {
            Theme::Mids
        } else {
            Theme::Neon
        }
    }

    /// The name under which the theme is shown and stored.
    pub fn label(self) -> (r: &'static str)
        ensures
            r@ == self.label_text(),
    {
        match self {
            Theme::Neon => "Neon",
            Theme::Light => "Light",
            Theme::Mids => "Mids",
        }
    }

    /// The theme that the stored name `s` stands for.
    pub fn from_label(s: &str) -> (r: Theme)
        ensures
            r == Theme::of_label(s@),
    {
        if same_text(s, "Light") {
            Theme::Light
        } else if same_text(s, "Mids") {
            Theme::Mids
        } else {
            Theme::Neon
        }
    }

    /// Every theme is read back from its own name.
    pub proof fn lemma_label_round_trip(self)
        ensures
            Theme::of_label(self.label_text()) == self,
    {
        reveal_strlit("Neon");
        reveal_strlit("Light");
        reveal_strlit("Mids");
        assert("Neon"@.len() == 4);
        assert("Light"@.len() == 5);
        assert("Mids"@.len() == 4);
        assert("Neon"@[0] == 'N');
        assert("Mids"@[0] == 'M');
    }
}

impl ActiveTab {
    /// The name under which the tab is shown.
    pub open spec fn label_text(self) -> Seq<char> {
        match self {
            ActiveTab::Monitor => "Monitor"@,
            ActiveTab::KnownDevices => "Known Devices"@,
        }
    }

    /// The name under which the tab is stored.
    pub open spec fn key_text(self) -> Seq<char> {
        match self {
            ActiveTab::Monitor => "Monitor"@,
            ActiveTab::KnownDevices => "KnownDevices"@,
        }
    }

    /// The tab that a stored name stands for; an unknown name gives the
    /// monitor tab.
    pub open spec fn of_label(s: Seq<char>) -> ActiveTab {
        if s == "KnownDevices"@ {
            ActiveTab::KnownDevices
        } else {
            ActiveTab::Monitor
        }
    }

    /// The name under which the tab is shown.
    pub fn label(self) -> (r: &'static str)
        ensures
            r@ == self.label_text(),
    {
        match self {
            ActiveTab::Monitor => "Monitor",
            ActiveTab::KnownDevices => "Known Devices",
        }
    }

    /// The tab that the stored name `s` stands for.
    pub fn from_label(s: &str) -> (r: ActiveTab)
        ensures
            r == ActiveTab::of_label(s@),
    {
        if same_text(s, "KnownDevices") {
            ActiveTab::KnownDevices
        } else {
            ActiveTab::Monitor
        }
    }

    /// The name under which the tab is stored.
    pub fn save_key(self) -> (r: &'static str)
        ensures
            r@ == self.key_text(),
    {
        match self {
            ActiveTab::Monitor => "Monitor",
            ActiveTab::KnownDevices => "KnownDevices",
        }
    }

    /// Every tab is read back from the name under which it is stored.
    pub proof fn lemma_key_round_trip(self)
        ensures
            ActiveTab::of_label(self.key_text()) == self,
    {
        reveal_strlit("Monitor");
        reveal_strlit("KnownDevices");
        assert("Monitor"@.len() == 7);
        assert("KnownDevices"@.len() == 12);
    }
}

impl SortMode {
    /// The name under which the sort order is shown.
    pub open spec fn label_text(self) -> Seq<char> {
        match self {
            SortMode::Status => "Status"@,
            SortMode::Name => "Name"@,
            SortMode::LastSeen => "Last Seen"@,
            SortMode::TimesSeen => "Times Seen"@,
            SortMode::FirstSeen => "First Seen"@,
        }
    }

    /// The name under which the sort order is shown.
    pub fn label(self) -> (r: &'static str)
        ensures
            r@ == self.label_text(),
    {
        match self {
            SortMode::Status => "Status",
            SortMode::Name => "Name",
            SortMode::LastSeen => "Last Seen",
            SortMode::TimesSeen => "Times Seen",
            SortMode::FirstSeen => "First Seen",
        }
    }
}

} // verus!
