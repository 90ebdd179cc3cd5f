//! The workday calendar: cached holiday facts, the overtime configuration,
//! and the rule that says whether a date is worked.

use vstd::prelude::*;
use crate::date::{Date, days_from_monday, is_day_number};
use crate::overtime::{OvertimeConfig, WeekendMode, day_set};

verus! {

/// What the calendar knows of one date.
#[derive(Clone, Copy, Debug, PartialEq, Eq, Structural)]
pub struct WorkdayFact {
    pub date: Date,
    /// The date is a day off.
    pub is_holiday: bool,
    /// The date is worked although it falls on a weekend.
    pub is_makeup_workday: bool,
    /// The year whose yearly sync brought this fact.
    pub year: i32,
}

/// A fact without its date.
pub struct FactView {
    pub is_holiday: bool,
    pub is_makeup_workday: bool,
    pub year: int,
}

/// A fact with the day number of its date.
pub struct DatedFact {
    pub day: int,
    pub fact: FactView,
}

impl WorkdayFact {
    /// The fact without its date.
    pub open spec fn content(self) -> FactView {
        FactView {
            is_holiday: self.is_holiday,
            is_makeup_workday: self.is_makeup_workday,
            year: self.year as int,
        }
    }
}

impl View for WorkdayFact {
    type V = DatedFact;

    open spec fn view(&self) -> DatedFact {
        DatedFact { day: self.date@, fact: self.content() }
    }
}

/// The views of a list of facts.
pub open spec fn fact_views(facts: Seq<WorkdayFact>) -> Seq<DatedFact> {
    facts.map_values(|f: WorkdayFact| f@)
}

/// A fact as the cache takes it: where both flags are set, the holiday
/// wins, as it does in the rule.
pub open spec fn settled(fact: FactView) -> FactView {
    FactView { is_makeup_workday: fact.is_makeup_workday && !fact.is_holiday, ..fact }
}

/// The calendar as the rules see it: facts by day number, the weekend mode
/// and the custom overtime dates.
pub struct CalendarView {
    pub facts: Map<int, FactView>,
    pub weekend_mode: WeekendMode,
    pub custom_dates: Set<int>,
}

impl CalendarView {
    /// No date is flagged both as a holiday and as a make-up workday.
    pub open spec fn wf(self) -> bool {
        forall|d: int| #[trigger]
            self.facts.contains_key(d) ==> !(self.facts[d].is_holiday
                && self.facts[d].is_makeup_workday)
    }

    /// Whether the overtime configuration marks day `d`: a Saturday or
    /// Sunday that the weekend mode works, or a custom date.
    pub open spec fn is_overtime(self, d: int) -> bool {
        ||| days_from_monday(d) == 5 && self.weekend_mode.works_saturday()
        ||| days_from_monday(d) == 6 && self.weekend_mode.works_sunday()
        ||| self.custom_dates.contains(d)
    }

    /// Whether day `d` is worked. A holiday fact wins over everything, then
    /// a make-up fact, then the overtime configuration; a date that none of
    /// them speaks of is worked from Monday to Friday.
    pub open spec fn is_workday(self, d: int) -> bool {
        if self.facts.contains_key(d) && self.facts[d].is_holiday {
            false
        } else if self.facts.contains_key(d) && self.facts[d].is_makeup_workday {
            true
        } else if self.is_overtime(d) {
            true
        } else {
            days_from_monday(d) < 5
        }
    }

    /// How many days from `start` to `end`, both included, are worked.
    pub open spec fn workdays_between(self, start: int, end: int) -> nat
        decreases end - start + 1,
    {
        if end < start {
            0
        } else {
            self.workdays_between(start, end - 1) + if self.is_workday(end) {
                1nat
            } else {
                0nat
            }
        }
    }

    /// Whether the cache holds a fact that the sync of `year` brought.
    pub open spec fn has_year(self, year: int) -> bool {
        exists|d: int| #[trigger] self.facts.contains_key(d) && self.facts[d].year == year
    }

    /// The calendar after `facts` were stored one by one, a later fact
    /// replacing an earlier one for the same date.
    pub open spec fn with_facts(self, facts: Seq<DatedFact>) -> CalendarView
        decreases facts.len(),
    {
        if facts.len() == 0 {
            self
        } else {
            let before = self.with_facts(facts.drop_last());
            CalendarView {
                facts: before.facts.insert(facts.last().day, settled(facts.last().fact)),
                ..before
            }
        }
    }
}

/// No two facts speak of one date.
pub open spec fn distinct_dates(facts: Seq<WorkdayFact>) -> bool {
    forall|i: int, j: int|
        0 <= i < j < facts.len() ==> (#[trigger] facts[i]).date@ != (#[trigger] facts[j]).date@
}

/// A table whose rows have distinct dates and never both flags.
pub open spec fn sound_table(facts: Seq<WorkdayFact>) -> bool {
    &&& distinct_dates(facts)
    &&& forall|i: int|
        0 <= i < facts.len() ==> !((#[trigger] facts[i]).is_holiday && facts[i].is_makeup_workday)
}

/// The facts of a table, by day number.
pub open spec fn facts_by_day(facts: Seq<WorkdayFact>) -> Map<int, FactView> {
    Map::new(
        |d: int| exists|i: int| 0 <= i < facts.len() && #[trigger] facts[i].date@ == d,
        |d: int|
            facts[choose|i: int| 0 <= i < facts.len() && #[trigger] facts[i].date@ == d].content(),
    )
}

/// In a table of distinct dates, each row is what the map holds for its
/// date.
pub(crate) proof fn lemma_row_is_fact(facts: Seq<WorkdayFact>, i: int)
    requires
        distinct_dates(facts),
        0 <= i < facts.len(),
    ensures
        facts_by_day(facts).contains_key(facts[i].date@),
        facts_by_day(facts)[facts[i].date@] == facts[i].content(),
{
    let d = facts[i].date@;
    let k = choose|k: int| 0 <= k < facts.len() && #[trigger] facts[k].date@ == d;
    assert(k == i) by {
        if k < i {
            assert(facts[k].date@ != facts[i].date@);
        } else if i < k {
            assert(facts[i].date@ != facts[k].date@);
        }
    }
}

/// The index of the row for `date`, if the table has one.
fn find_fact(facts: &Vec<WorkdayFact>, date: &Date) -> (r: Option<usize>)
    ensures
        r matches Some(i) ==> i < facts.len() && facts[i as int].date@ == date@,
        r is None ==> forall|i: int| 0 <= i < facts.len() ==> facts[i].date@ != date@,
{
    let mut i: usize = 0;
    while i < facts.len()
        invariant
            i <= facts.len(),
            forall|k: int| 0 <= k < i ==> facts[k].date@ != date@,
        decreases facts.len() - i,
    {
        if facts[i].date.days() == date.days() {
            return Some(i);
        }
        i += 1;
    }
    None
}

/// Stores `fact` in the table, in place of the row for its date if there
/// is one.
pub(crate) fn upsert(table: &mut Vec<WorkdayFact>, fact: WorkdayFact)
    requires
        sound_table(old(table)@),
        !(fact.is_holiday && fact.is_makeup_workday),
    ensures
        sound_table(final(table)@),
        facts_by_day(final(table)@) == facts_by_day(old(table)@).insert(
            fact.date@,
            fact.content(),
        ),
{
    let ghost before = table@;
    let ghost want = facts_by_day(before).insert(fact.date@, fact.content());
    match find_fact(table, &fact.date) {
        Some(i) => {
            table.set(i, fact);
            proof {
                assert forall|d: int| #[trigger]
                    facts_by_day(table@).contains_key(d) == want.contains_key(d) by {
                    if facts_by_day(table@).contains_key(d) {
                        let k = choose|k: int| 0 <= k < table.len() && #[trigger] table[k].date@ == d;
                        assert(before[k].date@ == d || k == i);
                    }
                    if facts_by_day(before).contains_key(d) {
                        let k = choose|k: int| 0 <= k < before.len() && #[trigger] before[k].date@ == d;
                        assert(table[k].date@ == d);
                    }
                    if d == fact.date@ {
                        assert(table[i as int].date@ == d);
                    }
                }
                assert forall|d: int| facts_by_day(table@).contains_key(d) implies facts_by_day(
                    table@,
                )[d] == want[d] by {
                    let k = choose|k: int| 0 <= k < table.len() && #[trigger] table[k].date@ == d;
                    lemma_row_is_fact(table@, k);
                    if k != i {
                        lemma_row_is_fact(before, k);
                    }
                }
            }
        },
        None => {
            table.push(fact);
            proof {
                assert forall|d: int| #[trigger]
                    facts_by_day(table@).contains_key(d) == want.contains_key(d) by {
                    if facts_by_day(table@).contains_key(d) {
                        let k = choose|k: int| 0 <= k < table.len() && #[trigger] table[k].date@ == d;
                        if k < before.len() {
                            assert(before[k].date@ == d);
                        }
                    }
                    if facts_by_day(before).contains_key(d) {
                        let k = choose|k: int| 0 <= k < before.len() && #[trigger] before[k].date@ == d;
                        assert(table[k].date@ == d);
                    }
                    if d == fact.date@ {
                        assert(table[table.len() - 1].date@ == d);
                    }
                }
                assert forall|d: int| facts_by_day(table@).contains_key(d) implies facts_by_day(
                    table@,
                )[d] == want[d] by {
                    let k = choose|k: int| 0 <= k < table.len() && #[trigger] table[k].date@ == d;
                    lemma_row_is_fact(table@, k);
                    if k < before.len() {
                        lemma_row_is_fact(before, k);
                    }
                }
            }
        },
    }
}

/// The fact as the cache takes it.
pub(crate) fn settle(fact: &WorkdayFact, year: i32) -> (r: WorkdayFact)
    ensures
        r.date == fact.date,
        r.content() == settled(FactView { year: year as int, ..fact.content() }),
        !(r.is_holiday && r.is_makeup_workday),
{
    WorkdayFact {
        date: fact.date,
        is_holiday: fact.is_holiday,
        is_makeup_workday: fact.is_makeup_workday && !fact.is_holiday,
        year,
    }
}

/// The workday calendar of one installation.
#[derive(Debug)]
pub struct WorkdayCalendar {
    facts: Vec<WorkdayFact>,
    overtime: OvertimeConfig,
}

impl View for WorkdayCalendar {
    type V = CalendarView;

    closed spec fn view(&self) -> CalendarView {
        CalendarView {
            facts: facts_by_day(self.facts@),
            weekend_mode: self.overtime.weekend_mode,
            custom_dates: day_set(self.overtime.custom_dates@),
        }
    }
}

impl WorkdayCalendar {
    #[verifier::type_invariant]
    pub(crate) closed spec fn table_is_sound(self) -> bool {
        sound_table(self.facts@)
    }

    /// A calendar with a sound table flags no date both ways.
    pub(crate) proof fn lemma_view_wf(self)
        requires
            self.table_is_sound(),
        ensures
            self@.wf(),
    {
        assert forall|d: int| #[trigger] self@.facts.contains_key(d) implies !(
        self@.facts[d].is_holiday && self@.facts[d].is_makeup_workday) by {
            let i = choose|i: int| 0 <= i < self.facts.len() && #[trigger] self.facts[i].date@ == d;
            lemma_row_is_fact(self.facts@, i);
        }
    }

    /// A calendar without facts: every date falls back on the overtime
    /// configuration and the weekday rule.
    pub fn new(overtime: OvertimeConfig) -> (cal: WorkdayCalendar)
        ensures
            cal@.wf(),
            cal@.facts == Map::<int, FactView>::empty(),
            cal@.weekend_mode == overtime.weekend_mode,
            cal@.custom_dates == day_set(overtime.custom_dates@),
    {
        let cal = WorkdayCalendar { facts: Vec::new(), overtime };
        cal
    }

    /// The calendar that holds `facts` and nothing else: what a store of
    /// facts is read back into. A later fact replaces an earlier one for
    /// the same date.
    pub fn from_facts(overtime: OvertimeConfig, facts: &Vec<WorkdayFact>) -> (cal: WorkdayCalendar)
        ensures
            cal@.wf(),
            cal@ == (CalendarView {
                facts: Map::empty(),
                weekend_mode: overtime.weekend_mode,
                custom_dates: day_set(overtime.custom_dates@),
            }).with_facts(fact_views(facts@)),
    {
        let ghost start = CalendarView {
            facts: Map::empty(),
            weekend_mode: overtime.weekend_mode,
            custom_dates: day_set(overtime.custom_dates@),
        };
        let ghost views = fact_views(facts@);
        let mut table: Vec<WorkdayFact> = Vec::new();
        let mut i: usize = 0;
        while i < facts.len()
            invariant
                i <= facts.len(),
                views == fact_views(facts@),
                sound_table(table@),
                facts_by_day(table@) == start.with_facts(views.take(i as int)).facts,
            decreases facts.len() - i,
        {
            proof {
                assert(views.take(i + 1).drop_last() == views.take(i as int));
            }
            upsert(&mut table, settle(&facts[i], facts[i].year));
            i += 1;
        }
        proof {
            assert(views.take(facts.len() as int) == views);
            lemma_facts_keep_overtime(start, views);
        }
        let cal = WorkdayCalendar { facts: table, overtime };
        proof {
            cal.lemma_view_wf();
        }
        cal
    }

    /// The table of the calendar.
    pub(crate) fn table(&self) -> (table: &Vec<WorkdayFact>)
        ensures
            sound_table(table@),
            facts_by_day(table@) == self@.facts,
            self@.wf(),
    {
        proof {
            use_type_invariant(self);
            self.lemma_view_wf();
        }
        &self.facts
    }

    /// Puts `table` in the place of the calendar's table.
    pub(crate) fn set_table(&mut self, table: Vec<WorkdayFact>)
        requires
            sound_table(table@),
        ensures
            final(self)@ == (CalendarView { facts: facts_by_day(table@), ..old(self)@ }),
            final(self)@.wf(),
    {
        self.facts = table;
        proof {
            self.lemma_view_wf();
        }
    }

    /// The weekend mode of the overtime configuration.
    pub fn weekend_mode(&self) -> (mode: WeekendMode)
        ensures
            mode == self@.weekend_mode,
    {
        self.overtime.weekend_mode
    }

    /// Whether `date` is one of the custom overtime dates.
    pub fn is_custom_overtime(&self, date: &Date) -> (r: bool)
        ensures
            r == self@.custom_dates.contains(date@),
    {
        self.overtime.is_custom_date(date)
    }

    /// The fact cached for `date`, if there is one.
    pub fn fact(&self, date: &Date) -> (r: Option<WorkdayFact>)
        ensures
            self@.wf(),
            r matches Some(f) ==> f.date == *date && self@.facts.contains_key(date@)
                && self@.facts[date@] == f.content(),
            r is None <==> !self@.facts.contains_key(date@),
    {
        proof {
            use_type_invariant(self);
            self.lemma_view_wf();
        }
        match find_fact(&self.facts, date) {
            Some(i) => {
                proof {
                    lemma_row_is_fact(self.facts@, i as int);
                    self.facts[i as int].date.same_day(*date);
                }
                Some(self.facts[i])
            },
            None => None,
        }
    }

    /// Whether the cache holds a fact that the sync of `year` brought.
    pub fn has_year(&self, year: i32) -> (r: bool)
        ensures
            r == self@.has_year(year as int),
    {
        proof {
            use_type_invariant(self);
        }
        let mut i: usize = 0;
        while i < self.facts.len()
            invariant
                i <= self.facts.len(),
                distinct_dates(self.facts@),
                forall|k: int| 0 <= k < i ==> (#[trigger] self.facts[k]).year != year,
            decreases self.facts.len() - i,
        {
            if self.facts[i].year == year {
                proof {
                    lemma_row_is_fact(self.facts@, i as int);
                    let d = self.facts[i as int].date@;
                    assert(self@.facts.contains_key(d) && self@.facts[d].year == year);
                }
                return true;
            }
            i += 1;
        }
        proof {
            assert forall|d: int| #[trigger] self@.facts.contains_key(d) implies self@.facts[d].year
                != year by {
                let k = choose|k: int| 0 <= k < self.facts.len() && #[trigger] self.facts[k].date@ == d;
                lemma_row_is_fact(self.facts@, k);
            }
        }
        false
    }

    /// The facts that the sync of `year` brought, each date once.
    pub fn facts_of_year(&self, year: i32) -> (found: Vec<WorkdayFact>)
        ensures
            distinct_dates(found@),
            forall|k: int|
                0 <= k < found.len() ==> self@.facts.contains_key((#[trigger] found[k]).date@)
                    && self@.facts[found[k].date@] == found[k].content() && found[k].year == year,
            forall|d: int|
                self@.facts.contains_key(d) && self@.facts[d].year == year ==> exists|k: int|
                    0 <= k < found.len() && #[trigger] found[k].date@ == d,
    {
        proof {
            use_type_invariant(self);
        }
        let mut found: Vec<WorkdayFact> = Vec::new();
        let ghost mut origin: Seq<int> = Seq::empty();
        let mut i: usize = 0;
        while i < self.facts.len()
            invariant
                i <= self.facts.len(),
                distinct_dates(self.facts@),
                origin.len() == found.len(),
                forall|k: int|
                    0 <= k < found.len() ==> 0 <= #[trigger] origin[k] < i && found[k]
                        == self.facts[origin[k]] && found[k].year == year,
                forall|k: int, l: int| 0 <= k < l < found.len() ==> origin[k] < origin[l],
                forall|j: int|
                    0 <= j < i && (#[trigger] self.facts[j]).year == year ==> exists|k: int|
                        0 <= k < found.len() && #[trigger] found[k].date@ == self.facts[j].date@,
            decreases self.facts.len() - i,
        {
            if self.facts[i].year == year {
                let ghost before = found@;
                found.push(self.facts[i]);
                proof {
                    origin = origin.push(i as int);
                    assert forall|j: int|
                        0 <= j < i + 1 && (#[trigger] self.facts[j]).year == year implies exists|
                        k: int,
                    |
                        0 <= k < found.len() && #[trigger] found[k].date@ == self.facts[j].date@ by {
                        if j < i {
                            let k = choose|k: int|
                                0 <= k < before.len() && #[trigger] before[k].date@
                                    == self.facts[j].date@;
                            assert(found[k].date@ == self.facts[j].date@);
                        } else {
                            assert(found[found.len() - 1].date@ == self.facts[j].date@);
                        }
                    }
                }
            }
            i += 1;
        }
        proof {
            assert forall|k: int, l: int| 0 <= k < l < found.len() implies (#[trigger] found[k]).date@
                != (#[trigger] found[l]).date@ by {
                assert(self.facts[origin[k]].date@ != self.facts[origin[l]].date@);
            }
            assert forall|k: int| 0 <= k < found.len() implies self@.facts.contains_key(
                (#[trigger] found[k]).date@,
            ) && self@.facts[found[k].date@] == found[k].content() && found[k].year == year by {
                lemma_row_is_fact(self.facts@, origin[k]);
            }
            assert forall|d: int|
                self@.facts.contains_key(d) && self@.facts[d].year == year implies exists|k: int|
                0 <= k < found.len() && #[trigger] found[k].date@ == d by {
                let j = choose|j: int| 0 <= j < self.facts.len() && #[trigger] self.facts[j].date@ == d;
                lemma_row_is_fact(self.facts@, j);
            }
        }
        found
    }
}

/// Whether `date` is a working day.
///
/// A date that the cache flags as a holiday is never one, whatever the
/// overtime configuration says; a date that it flags as a make-up workday
/// always is.
pub fn is_workday(cal: &WorkdayCalendar, date: &Date) -> (r: bool)
    ensures
        r == cal@.is_workday(date@),
        cal@.wf(),
        cal@.facts.contains_key(date@) && cal@.facts[date@].is_holiday ==> !r,
        cal@.facts.contains_key(date@) && cal@.facts[date@].is_makeup_workday ==> r,
{
    match cal.fact(date) {
        Some(f) => {
            if f.is_holiday {
                return false;
            }
            if f.is_makeup_workday {
                return true;
            }
        },
        None => {},
    }
    let weekday: u32 = date.num_days_from_monday();
    let mode: WeekendMode = cal.weekend_mode();
    if weekday == 5 && (mode == WeekendMode::Saturday || mode == WeekendMode::Both) {
        return true;
    }
    if weekday == 6 && (mode == WeekendMode::Sunday || mode == WeekendMode::Both) {
        return true;
    }
    if cal.is_custom_overtime(date) {
        return true;
    }
    weekday < 5
}

/// Counts the working days from `start` to `end`, both included. The
/// count is never less than 1: a range without a working day counts as one
/// day, so that a caller may divide by the result.
pub fn count_working_days(cal: &WorkdayCalendar, start: &Date, end: &Date) -> (count: i64)
    ensures
        count == if cal@.workdays_between(start@, end@) == 0 {
            1
        } else {
            cal@.workdays_between(start@, end@) as int
        },
        count >= 1,
{
    let first: i32 = start.days();
    let last: i32 = end.days();
    let mut count: i64 = 0;
    let mut current: i32 = first;
    while current <= last
        invariant
            first == start@,
            last == end@,
            is_day_number(first as int),
            is_day_number(last as int),
            first <= current,
            current <= last + 1 || current == first,
            0 <= count <= current - first,
            count == cal@.workdays_between(first as int, current - 1),
        decreases last - current + 1,
    {
        let day = Date::at(current);
        if is_workday(cal, &day) {
            count += 1;
        }
        current += 1;
    }
    if count < 1 {
        1
    } else {
        count
    }
}

/// Calendar precedence: a date flagged as a holiday is never a working
/// day, whatever the overtime configuration says, and a date flagged as a
/// make-up workday is always one.
pub proof fn lemma_calendar_precedence(
    facts: Map<int, FactView>,
    weekend_mode: WeekendMode,
    custom_dates: Set<int>,
    d: int,
)
    requires
        (CalendarView { facts, weekend_mode, custom_dates }).wf(),
        facts.contains_key(d),
    ensures
        facts[d].is_holiday ==> !(CalendarView { facts, weekend_mode, custom_dates }).is_workday(d),
        facts[d].is_makeup_workday ==> (CalendarView {
            facts,
            weekend_mode,
            custom_dates,
        }).is_workday(d),
{
}

/// Whether one of `facts` speaks of day `d`.
pub open spec fn names_day(facts: Seq<DatedFact>, d: int) -> bool
    decreases facts.len(),
{
    if facts.len() == 0 {
        false
    } else {
        facts.last().day == d || names_day(facts.drop_last(), d)
    }
}

/// The last of `facts` to speak of day `d`.
pub open spec fn latest_fact(facts: Seq<DatedFact>, d: int) -> FactView
    decreases facts.len(),
{
    if facts.len() == 0 {
        arbitrary()
    } else if facts.last().day == d {
        facts.last().fact
    } else {
        latest_fact(facts.drop_last(), d)
    }
}

/// What the cache holds for a day after facts were stored: the last fact
/// that speaks of the day, or what it held before where none does.
pub proof fn lemma_facts_stored(cal: CalendarView, facts: Seq<DatedFact>, d: int)
    ensures
        cal.with_facts(facts).facts.contains_key(d) == (cal.facts.contains_key(d) || names_day(
            facts,
            d,
        )),
        names_day(facts, d) ==> cal.with_facts(facts).facts[d] == settled(latest_fact(facts, d)),
        !names_day(facts, d) ==> cal.with_facts(facts).facts[d] == cal.facts[d],
    decreases facts.len(),
{
    if facts.len() > 0 {
        lemma_facts_stored(cal, facts.drop_last(), d);
    }
}

/// Storing facts changes no part of the overtime configuration.
pub(crate) proof fn lemma_facts_keep_overtime(cal: CalendarView, facts: Seq<DatedFact>)
    ensures
        cal.with_facts(facts).weekend_mode == cal.weekend_mode,
        cal.with_facts(facts).custom_dates == cal.custom_dates,
    decreases facts.len(),
{
    if facts.len() > 0 {
        lemma_facts_keep_overtime(cal, facts.drop_last());
    }
}

/// Storing facts keeps the calendar sound: no date comes out flagged both
/// ways.
pub proof fn lemma_facts_keep_wf(cal: CalendarView, facts: Seq<DatedFact>)
    requires
        cal.wf(),
    ensures
        cal.with_facts(facts).wf(),
    decreases facts.len(),
{
    if facts.len() > 0 {
        lemma_facts_keep_wf(cal, facts.drop_last());
    }
}

} // verus!
