//! Keeping the cache of holiday facts in step with the holiday source.
//!
//! The source is asked once a year of the calendar. What came of asking is
//! handed in as a [`SourceReply`]; the functions here decide what the
//! cache takes from it.

use vstd::prelude::*;
use crate::calendar::{
    CalendarView, DatedFact, FactView, WorkdayCalendar, WorkdayFact, fact_views, facts_by_day,
    latest_fact, lemma_facts_keep_overtime, lemma_facts_keep_wf, lemma_facts_stored,
    lemma_row_is_fact, names_day, settle, sound_table, upsert,
};
use crate::date::{Date, canonical_date, year_of_day};
use crate::error::{ScheduleError, SourceFault};

verus! {

/// One date as the holiday source reports it.
#[derive(Clone, Debug)]
pub struct HolidayEntry {
    /// `true` for a day off, `false` for a make-up workday.
    pub holiday: bool,
    pub name: String,
    /// The date, written `YYYY-MM-DD`.
    pub date: String,
}

/// The answer of the holiday source for one year.
#[derive(Clone, Debug)]
pub struct HolidayApiResponse {
    /// 0 for success.
    pub code: i32,
    pub holiday: Option<Vec<HolidayEntry>>,
}

/// What came of asking the holiday source for one year.
#[derive(Clone, Debug)]
pub enum SourceReply {
    /// The request failed, or its answer could not be read.
    Unreachable,
    Answered(HolidayApiResponse),
}

/// The reply of the holiday source for `year`.
#[derive(Clone, Debug)]
pub struct YearReply {
    pub year: i32,
    pub reply: SourceReply,
}

impl SourceReply {
    /// The entries that the reply brings, where it reports success.
    pub open spec fn facts(self) -> Option<Seq<HolidayEntry>> {
        match self {
            SourceReply::Unreachable => None,
            SourceReply::Answered(answer) => if answer.code != 0 {
                None
            } else {
                match answer.holiday {
                    Some(entries) => Some(entries@),
                    None => Some(Seq::empty()),
                }
            },
        }
    }

    /// Why the reply brings no facts.
    pub open spec fn fault(self) -> SourceFault {
        match self {
            SourceReply::Unreachable => SourceFault::Unreachable,
            SourceReply::Answered(answer) => SourceFault::Status(answer.code),
        }
    }
}

/// The fact that an entry of the source states, cached under `year`.
pub open spec fn fact_of_entry(entry: HolidayEntry, year: int) -> FactView {
    FactView { is_holiday: entry.holiday, is_makeup_workday: !entry.holiday, year }
}

/// The facts that `entries` state, in their order: an entry whose date is
/// not written in canonical form states none.
pub open spec fn entry_facts(entries: Seq<HolidayEntry>, year: int) -> Seq<DatedFact>
    decreases entries.len(),
{
    if entries.len() == 0 {
        Seq::empty()
    } else {
        match canonical_date(entries.last().date@) {
            Some(day) => entry_facts(entries.drop_last(), year).push(
                DatedFact { day, fact: fact_of_entry(entries.last(), year) },
            ),
            None => entry_facts(entries.drop_last(), year),
        }
    }
}

/// The facts of a list, each marked as brought by the sync of `year`.
pub open spec fn stamped(facts: Seq<DatedFact>, year: int) -> Seq<DatedFact> {
    facts.map_values(|f: DatedFact| DatedFact { day: f.day, fact: FactView { year, ..f.fact } })
}

/// The index of the first reply for `year`.
pub open spec fn first_reply(replies: Seq<YearReply>, year: int) -> Option<int>
    decreases replies.len(),
{
    if replies.len() == 0 {
        None
    } else {
        match first_reply(replies.drop_last(), year) {
            Some(i) => Some(i),
            None => if replies.last().year == year {
                Some(replies.len() - 1)
            } else {
                None
            },
        }
    }
}

impl CalendarView {
    /// The calendar without the facts that the sync of `year` brought.
    pub open spec fn without_year(self, year: int) -> CalendarView {
        CalendarView {
            facts: Map::new(
                |d: int| self.facts.contains_key(d) && self.facts[d].year != year,
                |d: int| self.facts[d],
            ),
            ..self
        }
    }

    /// The calendar after the facts of `year` were replaced by `facts`:
    /// the year's old facts are gone and `facts` stand in their place,
    /// marked as brought by the sync of `year`.
    pub open spec fn replaced(self, year: int, facts: Seq<DatedFact>) -> CalendarView {
        self.without_year(year).with_facts(stamped(facts, year))
    }

    /// The calendar after a successful sync of `year` that brought
    /// `entries`.
    pub open spec fn synced(self, year: int, entries: Seq<HolidayEntry>) -> CalendarView {
        self.replaced(year, entry_facts(entries, year))
    }

    /// The calendar after `reply` was applied for `year`; a reply that
    /// brings no facts leaves it as it is.
    pub open spec fn after_reply(self, year: int, reply: SourceReply) -> CalendarView {
        match reply.facts() {
            Some(entries) => self.synced(year, entries),
            None => self,
        }
    }

    /// The calendar after `year` was made sure of: a year that has facts is
    /// left alone, one without is synced from the first reply for it.
    pub open spec fn ensured_year(self, year: int, replies: Seq<YearReply>) -> CalendarView {
        if self.has_year(year) {
            self
        } else {
            match first_reply(replies, year) {
                Some(i) => self.after_reply(year, replies[i].reply),
                None => self,
            }
        }
    }

    /// The calendar after the years `from` to `to` were made sure of, in
    /// ascending order.
    pub open spec fn ensured(self, from: int, to: int, replies: Seq<YearReply>) -> CalendarView
        decreases to - from + 1,
    {
        if to < from {
            self
        } else {
            self.ensured(from, to - 1, replies).ensured_year(to, replies)
        }
    }

    /// The years from `from` to `to` without a cached fact, ascending.
    pub open spec fn years_missing(self, from: int, to: int) -> Seq<int>
        decreases to - from + 1,
    {
        if to < from {
            Seq::empty()
        } else if self.has_year(to) {
            self.years_missing(from, to - 1)
        } else {
            self.years_missing(from, to - 1).push(to)
        }
    }
}

/// The rows of `facts` that the sync of `year` did not bring.
fn drop_year(facts: &Vec<WorkdayFact>, year: i32) -> (kept: Vec<WorkdayFact>)
    requires
        sound_table(facts@),
    ensures
        sound_table(kept@),
        facts_by_day(kept@) == Map::new(
            |d: int| facts_by_day(facts@).contains_key(d) && facts_by_day(facts@)[d].year != year,
            |d: int| facts_by_day(facts@)[d],
        ),
{
    let mut kept: Vec<WorkdayFact> = Vec::new();
    let ghost mut origin: Seq<int> = Seq::empty();
    let mut i: usize = 0;
    while i < facts.len()
        invariant
            i <= facts.len(),
            sound_table(facts@),
            origin.len() == kept.len(),
            forall|k: int|
                0 <= k < kept.len() ==> 0 <= #[trigger] origin[k] < i && kept[k] == facts[origin[k]]
                    && facts[origin[k]].year != year,
            forall|k: int, l: int| 0 <= k < l < kept.len() ==> origin[k] < origin[l],
            forall|j: int|
                0 <= j < i && (#[trigger] facts[j]).year != year ==> exists|k: int|
                    0 <= k < kept.len() && origin[k] == j,
        decreases facts.len() - i,
    {
        if facts[i].year != year {
            kept.push(facts[i]);
            proof {
                let ghost before = origin;
                origin = origin.push(i as int);
                assert forall|j: int|
                    0 <= j < i + 1 && (#[trigger] facts[j]).year != year implies exists|k: int|
                    0 <= k < kept.len() && origin[k] == j by {
                    if j < i {
                        let k = choose|k: int| 0 <= k < before.len() && before[k] == j;
                        assert(origin[k] == j);
                    } else {
                        assert(origin[kept.len() - 1] == j);
                    }
                }
            }
        }
        i += 1;
    }
    proof {
        assert forall|k: int, l: int| 0 <= k < l < kept.len() implies (#[trigger] kept[k]).date@ != (
        #[trigger] kept[l]).date@ by {
            assert(facts[origin[k]].date@ != facts[origin[l]].date@);
        }
        assert forall|k: int| 0 <= k < kept.len() implies !((#[trigger] kept[k]).is_holiday
            && kept[k].is_makeup_workday) by {
            assert(kept[k] == facts[origin[k]]);
        }
        let want = Map::new(
            |d: int| facts_by_day(facts@).contains_key(d) && facts_by_day(facts@)[d].year != year,
            |d: int| facts_by_day(facts@)[d],
        );
        assert forall|d: int| #[trigger]
            facts_by_day(kept@).contains_key(d) == want.contains_key(d) by {
            if facts_by_day(kept@).contains_key(d) {
                let k = choose|k: int| 0 <= k < kept.len() && #[trigger] kept[k].date@ == d;
                lemma_row_is_fact(facts@, origin[k]);
            }
            if want.contains_key(d) {
                let j = choose|j: int| 0 <= j < facts.len() && #[trigger] facts[j].date@ == d;
                lemma_row_is_fact(facts@, j);
                let k = choose|k: int| 0 <= k < kept.len() && origin[k] == j;
            }
        }
        assert forall|d: int| facts_by_day(kept@).contains_key(d) implies facts_by_day(kept@)[d]
            == want[d] by {
            let k = choose|k: int| 0 <= k < kept.len() && #[trigger] kept[k].date@ == d;
            lemma_row_is_fact(kept@, k);
            lemma_row_is_fact(facts@, origin[k]);
        }
    }
    kept
}

/// Replaces the cached facts of `year` by `facts`, a later fact replacing
/// an earlier one for the same date, and returns how many facts were
/// stored. Each fact is cached as brought by the sync of `year`, whatever
/// year it names itself.
pub fn replace_year(cal: &mut WorkdayCalendar, year: i32, facts: &Vec<WorkdayFact>) -> (count: usize)
    ensures
        final(cal)@ == old(cal)@.replaced(year as int, fact_views(facts@)),
        final(cal)@.wf(),
        count == facts.len(),
{
    let ghost start = cal@.without_year(year as int);
    let ghost marked = stamped(fact_views(facts@), year as int);
    let mut table: Vec<WorkdayFact> = drop_year(cal.table(), year);
    let mut i: usize = 0;
    while i < facts.len()
        invariant
            i <= facts.len(),
            marked == stamped(fact_views(facts@), year as int),
            sound_table(table@),
            facts_by_day(table@) == start.with_facts(marked.take(i as int)).facts,
        decreases facts.len() - i,
    {
        proof {
            assert(marked.take(i + 1).drop_last() == marked.take(i as int));
            assert(marked.take(i + 1).last() == DatedFact {
                day: facts[i as int].date@,
                fact: FactView { year: year as int, ..facts[i as int].content() },
            });
        }
        upsert(&mut table, settle(&facts[i], year));
        i += 1;
    }
    proof {
        assert(marked.take(facts.len() as int) == marked);
        lemma_facts_keep_overtime(start, marked);
    }
    cal.set_table(table);
    facts.len()
}

/// Reads the facts that the entries of the source state, each to be
/// cached under `year`; an entry whose date is not written in canonical
/// form is passed over.
pub fn project_entries(entries: &Vec<HolidayEntry>, year: i32) -> (facts: Vec<WorkdayFact>)
    ensures
        fact_views(facts@) == entry_facts(entries@, year as int),
{
    let mut facts: Vec<WorkdayFact> = Vec::new();
    let mut i: usize = 0;
    while i < entries.len()
        invariant
            i <= entries.len(),
            fact_views(facts@) == entry_facts(entries@.take(i as int), year as int),
        decreases entries.len() - i,
    {
        proof {
            assert(entries@.take(i + 1).drop_last() == entries@.take(i as int));
        }
        match Date::parse_canonical(entries[i].date.as_str()) {
            Some(date) => {
                let fact = WorkdayFact {
                    date,
                    is_holiday: entries[i].holiday,
                    is_makeup_workday: !entries[i].holiday,
                    year,
                };
                facts.push(fact);
            },
            None => {},
        }
        i += 1;
    }
    proof {
        assert(entries@.take(entries.len() as int) == entries@);
    }
    facts
}

/// Replaces the cached facts of `year` by those that the holiday source
/// sent for it, and returns how many facts were stored.
///
/// The reply is what came of asking the source for `year`. Where the
/// request failed or the source answered with another status than 0, the
/// calendar stays as it was and the error says so. An entry whose date is
/// not written in canonical form is passed over.
pub fn sync_holidays_for_year(cal: &mut WorkdayCalendar, year: i32, reply: &SourceReply) -> (r:
    Result<usize, ScheduleError>)
    ensures
        final(cal)@ == old(cal)@.after_reply(year as int, *reply),
        final(cal)@.wf(),
        r == match reply.facts() {
            Some(entries) => Ok::<usize, ScheduleError>(
                entry_facts(entries, year as int).len() as usize,
            ),
            None => Err::<usize, ScheduleError>(ScheduleError::SourceUnavailable(reply.fault())),
        },
{
    proof {
        use_type_invariant(&*cal);
        cal.lemma_view_wf();
    }
    match reply {
        SourceReply::Unreachable => Err(ScheduleError::SourceUnavailable(SourceFault::Unreachable)),
        SourceReply::Answered(answer) => {
            if answer.code != 0 {
                return Err(ScheduleError::SourceUnavailable(SourceFault::Status(answer.code)));
            }
            let facts: Vec<WorkdayFact> = match &answer.holiday {
                Some(entries) => project_entries(entries, year),
                None => Vec::new(),
            };
            Ok(replace_year(cal, year, &facts))
        },
    }
}

/// The index of the first reply for `year`.
fn find_reply(replies: &Vec<YearReply>, year: i32) -> (r: Option<usize>)
    ensures
        r matches Some(i) ==> i < replies.len() && first_reply(replies@, year as int) == Some(
            i as int,
        ),
        r is None ==> first_reply(replies@, year as int) is None,
{
    let mut i: usize = 0;
    while i < replies.len()
        invariant
            i <= replies.len(),
            first_reply(replies@.take(i as int), year as int) is None,
        decreases replies.len() - i,
    {
        proof {
            assert(replies@.take(i + 1).drop_last() == replies@.take(i as int));
        }
        if replies[i].year == year {
            proof {
                lemma_first_reply_stays(replies@, i + 1, year as int);
            }
            return Some(i);
        }
        i += 1;
    }
    proof {
        assert(replies@.take(replies.len() as int) == replies@);
    }
    None
}

/// A first reply found among the first `n` replies is the first of all.
proof fn lemma_first_reply_stays(replies: Seq<YearReply>, n: int, year: int)
    requires
        0 <= n <= replies.len(),
        first_reply(replies.take(n), year) is Some,
    ensures
        first_reply(replies, year) == first_reply(replies.take(n), year),
    decreases replies.len() - n,
{
    if n < replies.len() {
        assert(replies.take(n + 1).drop_last() == replies.take(n));
        lemma_first_reply_stays(replies, n + 1, year);
    } else {
        assert(replies.take(n) == replies);
    }
}

/// The years from `first` to `last` for which the cache holds no fact, in
/// ascending order.
pub fn years_without_facts(cal: &WorkdayCalendar, first: i32, last: i32) -> (years: Vec<i32>)
    ensures
        years@.map_values(|y: i32| y as int) == cal@.years_missing(first as int, last as int),
{
    let mut years: Vec<i32> = Vec::new();
    let mut year: i64 = first as i64;
    while year <= last as i64
        invariant
            first <= year,
            year <= last + 1 || year == first,
            years@.map_values(|y: i32| y as int) == cal@.years_missing(first as int, year - 1),
        decreases last - year + 1,
    {
        if !cal.has_year(year as i32) {
            years.push(year as i32);
            assert(years@.map_values(|y: i32| y as int) =~= cal@.years_missing(
                first as int,
                year - 1,
            ).push(year as int));
        }
        year += 1;
    }
    years
}

/// The years from that of `start` to that of `end` for which the cache
/// holds no fact, in ascending order: the years that
/// [`ensure_holidays_cached`] wants a reply for.
pub fn missing_years(cal: &WorkdayCalendar, start: &Date, end: &Date) -> (years: Vec<i32>)
    ensures
        years@.map_values(|y: i32| y as int) == cal@.years_missing(
            year_of_day(start@),
            year_of_day(end@),
        ),
{
    years_without_facts(cal, start.year(), end.year())
}

/// Makes sure that every year from `first` to `last` has facts in the
/// cache, as far as `replies` allow.
///
/// A year that has facts already is left alone. A year without is synced
/// from the first reply that `replies` hold for it. A reply that brings no
/// facts is passed over, as is a year without a reply: the calendar then
/// falls back on the overtime and weekday rules for that year.
pub fn ensure_years_cached(
    cal: &mut WorkdayCalendar,
    first: i32,
    last: i32,
    replies: &Vec<YearReply>,
)
    ensures
        final(cal)@ == old(cal)@.ensured(first as int, last as int, replies@),
        final(cal)@.wf(),
{
    proof {
        use_type_invariant(&*cal);
        cal.lemma_view_wf();
    }
    let mut year: i64 = first as i64;
    while year <= last as i64
        invariant
            first <= year,
            year <= last + 1 || year == first,
            cal@ == old(cal)@.ensured(first as int, year - 1, replies@),
            cal@.wf(),
        decreases last - year + 1,
    {
        if !cal.has_year(year as i32) {
            match find_reply(replies, year as i32) {
                Some(i) => {
                    let _ = sync_holidays_for_year(cal, year as i32, &replies[i].reply);
                },
                None => {},
            }
        }
        year += 1;
    }
}

/// Makes sure that every year from that of `start` to that of `end` has
/// facts in the cache, as far as `replies` allow: see
/// [`ensure_years_cached`].
pub fn ensure_holidays_cached(
    cal: &mut WorkdayCalendar,
    start: &Date,
    end: &Date,
    replies: &Vec<YearReply>,
)
    ensures
        final(cal)@ == old(cal)@.ensured(year_of_day(start@), year_of_day(end@), replies@),
        final(cal)@.wf(),
{
    ensure_years_cached(cal, start.year(), end.year(), replies)
}

/// The last of the marked facts to speak of a day is marked with the
/// year.
proof fn lemma_stamped_year(facts: Seq<DatedFact>, year: int, d: int)
    requires
        names_day(stamped(facts, year), d),
    ensures
        latest_fact(stamped(facts, year), d).year == year,
    decreases facts.len(),
{
    if facts.len() > 0 {
        assert(stamped(facts, year).drop_last() == stamped(facts.drop_last(), year));
        if stamped(facts, year).last().day != d {
            lemma_stamped_year(facts.drop_last(), year, d);
        }
    }
}

/// Replacing the facts of a year twice by the same facts leaves the
/// calendar as the first replacement left it.
pub proof fn lemma_replace_idempotent(cal: CalendarView, year: int, facts: Seq<DatedFact>)
    ensures
        cal.replaced(year, facts).replaced(year, facts) == cal.replaced(year, facts),
{
    let marked = stamped(facts, year);
    let cleared = cal.without_year(year);
    let once = cleared.with_facts(marked);
    let again = once.without_year(year).with_facts(marked);
    lemma_facts_keep_overtime(cleared, marked);
    lemma_facts_keep_overtime(once.without_year(year), marked);
    assert forall|d: int| #[trigger] again.facts.contains_key(d) == once.facts.contains_key(d) by {
        lemma_facts_stored(cleared, marked, d);
        lemma_facts_stored(once.without_year(year), marked, d);
    }
    assert forall|d: int| again.facts.contains_key(d) implies again.facts[d] == once.facts[d] by {
        lemma_facts_stored(cleared, marked, d);
        lemma_facts_stored(once.without_year(year), marked, d);
        if names_day(marked, d) {
            lemma_stamped_year(facts, year, d);
        }
    }
    assert(again.facts =~= once.facts);
}

/// Idempotence of sync: applying one reply twice for one year leaves the
/// calendar as the first application left it.
pub proof fn lemma_sync_idempotent(cal: CalendarView, year: int, reply: SourceReply)
    ensures
        cal.after_reply(year, reply).after_reply(year, reply) == cal.after_reply(year, reply),
{
    match reply.facts() {
        Some(entries) => {
            lemma_replace_idempotent(cal, year, entry_facts(entries, year));
        },
        None => {},
    }
}

/// A sync keeps the calendar sound: no date comes out flagged both ways.
pub proof fn lemma_sync_keeps_wf(cal: CalendarView, year: int, reply: SourceReply)
    requires
        cal.wf(),
    ensures
        cal.after_reply(year, reply).wf(),
{
    match reply.facts() {
        Some(entries) => {
            lemma_facts_keep_wf(cal.without_year(year), stamped(entry_facts(entries, year), year));
        },
        None => {},
    }
}

} // verus!
