//! The overtime configuration of an installation: the weekend days and
//! the single dates that are worked although the weekday rule says no.

use vstd::prelude::*;
use crate::date::{Date, canonical_date};
use crate::text::same_text;

verus! {

/// Which weekend days the installation works as overtime.
#[derive(Clone, Copy, Debug, PartialEq, Eq, Structural)]
pub enum WeekendMode {
    Off,
    Saturday,
    Sunday,
    Both,
}

/// The weekend mode that a stored setting names. Every text but
/// `saturday`, `sunday` and `both` switches weekend overtime off.
pub open spec fn weekend_mode_named(text: Seq<char>) -> WeekendMode {
    if text == "saturday"@ {
        WeekendMode::Saturday
    } else if text == "sunday"@ {
        WeekendMode::Sunday
    } else if text == "both"@ {
        WeekendMode::Both
    } else {
        WeekendMode::Off
    }
}

impl WeekendMode {
    /// Reads the mode from its stored name.
    pub fn from_setting(text: &str) -> (mode: WeekendMode)
        ensures
            mode == weekend_mode_named(text@),
    {
        if same_text(text, "saturday") {
            WeekendMode::Saturday
        } else if same_text(text, "sunday") {
            WeekendMode::Sunday
        } else if same_text(text, "both") {
            WeekendMode::Both
        } else {
            WeekendMode::Off
        }
    }

    /// Whether this mode works Saturdays.
    pub open spec fn works_saturday(self) -> bool {
        self == WeekendMode::Saturday || self == WeekendMode::Both
    }

    /// Whether this mode works Sundays.
    pub open spec fn works_sunday(self) -> bool {
        self == WeekendMode::Sunday || self == WeekendMode::Both
    }
}

/// The overtime configuration of the installation.
#[derive(Clone, Debug)]
pub struct OvertimeConfig {
    pub weekend_mode: WeekendMode,
    pub custom_dates: Vec<Date>,
}

/// The day numbers of the dates in `dates`.
pub open spec fn day_set(dates: Seq<Date>) -> Set<int> {
    Set::new(|d: int| exists|i: int| 0 <= i < dates.len() && #[trigger] dates[i]@ == d)
}

impl OvertimeConfig {
    /// Whether `date` is one of the custom overtime dates.
    pub fn is_custom_date(&self, date: &Date) -> (r: bool)
        ensures
            r == day_set(self.custom_dates@).contains(date@),
    {
        let mut i: usize = 0;
        while i < self.custom_dates.len()
            invariant
                i <= self.custom_dates.len(),
                forall|k: int| 0 <= k < i ==> self.custom_dates[k]@ != date@,
            decreases self.custom_dates.len() - i,
        {
            if self.custom_dates[i].days() == date.days() {
                return true;
            }
            i += 1;
        }
        false
    }
}

/// The overtime settings as they are stored: each part may be missing.
#[derive(Clone, Debug)]
pub struct OvertimeSettings {
    /// The name of the weekend mode.
    pub weekend: Option<String>,
    /// The custom overtime dates, each written `YYYY-MM-DD`.
    pub custom_dates: Option<Vec<String>>,
}

/// The dates that `texts` name in canonical form.
pub open spec fn canonical_dates(texts: Seq<String>) -> Set<int> {
    Set::new(
        |d: int| exists|i: int| 0 <= i < texts.len() && canonical_date(#[trigger] texts[i]@) == Some(d),
    )
}

/// The weekend mode that stored settings ask for: off where nothing is
/// stored or no mode is named.
pub open spec fn stored_weekend_mode(stored: Option<&OvertimeSettings>) -> WeekendMode {
    match stored {
        Some(settings) => match settings.weekend {
            Some(name) => weekend_mode_named(name@),
            None => WeekendMode::Off,
        },
        None => WeekendMode::Off,
    }
}

/// The custom overtime dates that stored settings ask for.
pub open spec fn stored_custom_dates(stored: Option<&OvertimeSettings>) -> Set<int> {
    match stored {
        Some(settings) => match settings.custom_dates {
            Some(texts) => canonical_dates(texts@),
            None => Set::empty(),
        },
        None => Set::empty(),
    }
}

/// One more text adds its canonical date, if it has one, to the dates
/// named so far.
proof fn lemma_canonical_dates_step(texts: Seq<String>, i: int, d: int)
    requires
        0 <= i < texts.len(),
    ensures
        canonical_dates(texts.take(i + 1)).contains(d) == (canonical_dates(texts.take(i)).contains(
            d,
        ) || canonical_date(texts[i]@) == Some(d)),
{
    let more = texts.take(i + 1);
    let fewer = texts.take(i);
    if canonical_dates(more).contains(d) {
        let k = choose|k: int| 0 <= k < more.len() && canonical_date(#[trigger] more[k]@) == Some(d);
        if k < i {
            assert(canonical_date(fewer[k]@) == Some(d));
        }
    }
    if canonical_dates(fewer).contains(d) {
        let k = choose|k: int| 0 <= k < fewer.len() && canonical_date(#[trigger] fewer[k]@) == Some(d);
        assert(canonical_date(more[k]@) == Some(d));
    }
    if canonical_date(texts[i]@) == Some(d) {
        assert(canonical_date(more[i]@) == Some(d));
    }
}

/// Reads the custom overtime dates out of their stored texts; a text that
/// is not the canonical form of a date is left out.
fn read_custom_dates(texts: &Vec<String>) -> (dates: Vec<Date>)
    ensures
        day_set(dates@) == canonical_dates(texts@),
{
    let mut dates: Vec<Date> = Vec::new();
    let mut i: usize = 0;
    while i < texts.len()
        invariant
            i <= texts.len(),
            day_set(dates@) == canonical_dates(texts@.take(i as int)),
        decreases texts.len() - i,
    {
        let ghost before = dates@;
        match Date::parse_canonical(texts[i].as_str()) {
            Some(date) => {
                dates.push(date);
                proof {
                    assert(dates@[dates.len() - 1]@ == date@);
                    assert forall|d: int| #[trigger]
                        day_set(dates@).contains(d) == canonical_dates(texts@.take(i + 1)).contains(
                            d,
                        ) by {
                        lemma_canonical_dates_step(texts@, i as int, d);
                        if day_set(dates@).contains(d) {
                            let k = choose|k: int| 0 <= k < dates.len() && #[trigger] dates[k]@ == d;
                            if k < before.len() {
                                assert(before[k]@ == d);
                            }
                        }
                        if day_set(before).contains(d) {
                            let k = choose|k: int|
                                0 <= k < before.len() && #[trigger] before[k]@ == d;
                            assert(dates[k]@ == d);
                        }
                    }
                }
            },
            None => {
                proof {
                    assert forall|d: int| #[trigger]
                        day_set(dates@).contains(d) == canonical_dates(texts@.take(i + 1)).contains(
                            d,
                        ) by {
                        lemma_canonical_dates_step(texts@, i as int, d);
                    }
                }
            },
        }
        i += 1;
    }
    proof {
        assert(texts@.take(texts.len() as int) == texts@);
    }
    dates
}

/// Builds the overtime configuration from the stored settings. `None`
/// stands for settings that are missing or unreadable: overtime is then
/// off. A custom date that is not written in canonical form matches no
/// date and is left out.
pub fn read_overtime_config(stored: Option<&OvertimeSettings>) -> (config: OvertimeConfig)
    ensures
        config.weekend_mode == stored_weekend_mode(stored),
        day_set(config.custom_dates@) == stored_custom_dates(stored),
{
    let weekend_mode = match stored {
        Some(settings) => match &settings.weekend {
            Some(name) => WeekendMode::from_setting(name.as_str()),
            None => WeekendMode::Off,
        },
        None => WeekendMode::Off,
    };
    let custom_dates = match stored {
        Some(settings) => match &settings.custom_dates {
            Some(texts) => read_custom_dates(texts),
            None => Vec::new(),
        },
        None => Vec::new(),
    };
    assert(stored_custom_dates(stored) == Set::<int>::empty() ==> day_set(custom_dates@)
        =~= Set::<int>::empty());
    OvertimeConfig { weekend_mode, custom_dates }
}

} // verus!
