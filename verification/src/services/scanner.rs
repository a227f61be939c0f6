use std::time::SystemTime;
use vstd::prelude::*;
use vstd::seq_lib::to_multiset_insert;
use vstd::string::*;
use crate::models::project::{
    projects_view, sessions_view, Project, ProjectView, Session, SessionView,
};
use crate::text::{
    before_suffix, comes_before, decimal, decimal_text, has_prefix, has_suffix,
    lemma_order_is_strict, lemma_order_is_transitive, push_char, text_less,
};
use crate::utils::path::{decode_with_separator, decoded, main_separator};

verus! {

/// `std::time::SystemTime`, a point in time by the clock of the machine.
/// Nothing is known of what is inside.
#[verifier::external_type_specification]
#[verifier::external_body]
pub struct ExSystemTime(SystemTime);

/// How far a time lies behind the start of 1970, in whole seconds and the
/// milliseconds of the second begun; `None` for a time before that start.
pub uninterp spec fn since_epoch(time: SystemTime) -> Option<(u64, u32)>;

/// `SystemTime::duration_since` with `UNIX_EPOCH`, then `Duration::as_secs`
/// and `Duration::subsec_millis`.
#[verifier::external_body]
fn epoch_offset(time: SystemTime) -> (r: Option<(u64, u32)>)
    ensures
        r == since_epoch(time),
{
    match time.duration_since(std::time::UNIX_EPOCH) {
        Ok(d) => Some((d.as_secs(), d.subsec_millis())),
        Err(_) => None,
    }
}

/// The date of a day, counted from the first of January 1970: year, month
/// and day of the month in the Gregorian calendar.
pub open spec fn civil_from_days(days: nat) -> (nat, nat, nat) {
    let z = days + 719468;
    let era = z / 146097;
    let doe = z % 146097;
    let yoe = (doe - doe / 1460 + doe / 36524 - doe / 146096) / 365;
    let doy = doe - (365 * yoe + yoe / 4 - yoe / 100);
    let mp = (5 * doy + 2) / 153;
    let day = doy - (153 * mp + 2) / 5 + 1;
    let month = if mp < 10 {
        mp + 3
    } else {
        mp - 9
    };
    let year = yoe + era * 400 + if month <= 2 {
        1int
    } else {
        0int
    };
    (year as nat, month as nat, day as nat)
}

/// Whether a year of the Gregorian calendar has a 29th of February.
pub open spec fn is_leap_year(year: int) -> bool {
    year % 4 == 0 && (year % 100 != 0 || year % 400 == 0)
}

/// The days of a year before the first of a month.
pub open spec fn days_before_month(year: int, month: int) -> int {
    let leap = if is_leap_year(year) && month > 2 {
        1int
    } else {
        0int
    };
    leap + if month == 1 {
        0int
    } else if month == 2 {
        31
    } else if month == 3 {
        59
    } else if month == 4 {
        90
    } else if month == 5 {
        120
    } else if month == 6 {
        151
    } else if month == 7 {
        181
    } else if month == 8 {
        212
    } else if month == 9 {
        243
    } else if month == 10 {
        273
    } else if month == 11 {
        304
    } else {
        334
    }
}

/// How many days a month has.
pub open spec fn days_in_month(year: int, month: int) -> int {
    if month == 2 {
        if is_leap_year(year) {
            29
        } else {
            28
        }
    } else if month == 4 || month == 6 || month == 9 || month == 11 {
        30
    } else {
        31
    }
}

/// The leap years from the year 1 to `year`.
pub open spec fn leap_years_through(year: int) -> int {
    year / 4 - year / 100 + year / 400
}

/// The days from the first of January 1970 to a date in 1970 or later.
pub open spec fn day_number(year: int, month: int, day: int) -> int {
    365 * (year - 1970) + leap_years_through(year - 1) - leap_years_through(1969)
        + days_before_month(year, month) + day - 1
}

/// The date of a day is a date of the calendar, and it is that day's date.
pub proof fn law_civil_from_days_is_the_date(days: nat)
    ensures
        ({
            let (year, month, day) = civil_from_days(days);
            &&& year >= 1970
            &&& 1 <= month <= 12
            &&& 1 <= day <= days_in_month(year as int, month as int)
            &&& day_number(year as int, month as int, day as int) == days
        }),
{
    let z = days + 719468;
    let era = z / 146097;
    let doe = z % 146097;
    let yoe = (doe - doe / 1460 + doe / 36524 - doe / 146096) / 365;
    let doy = doe - (365 * yoe + yoe / 4 - yoe / 100);
    let mp = (5 * doy + 2) / 153;
    let day = doy - (153 * mp + 2) / 5 + 1;
    let month = if mp < 10 {
        mp + 3
    } else {
        mp - 9
    };
    let y0 = yoe + era * 400;
    let year = y0 + if month <= 2 {
        1int
    } else {
        0int
    };
    lemma_year_of_era(doe as int);
    lemma_month_and_day(doy as int);
    lemma_leap_years_of(era as int, yoe as int);
    lemma_leap_year_step(y0);
    lemma_leap_year_step(y0 + 1);
    assert(z == 146097 * era + doe);
    assert(z == 365 * y0 + leap_years_through(y0) + doy);
    assert(leap_years_through(1969) == 477);
    lemma_month_start(mp as int);
    if mp < 10 {
        assert(year == y0);
        assert(days_before_month(year, month) + day - 1 == doy + 59 + if is_leap_year(y0) {
            1int
        } else {
            0int
        });
        assert(day_number(year, month, day) == days);
    } else {
        assert(year == y0 + 1);
        assert(days_before_month(year, month) + day - 1 == doy - 306);
        assert(day_number(year, month, day) == days);
        if doy == 365 {
            lemma_leap_by_year_of_era(era as int, yoe + 1);
        }
    }
    assert(z >= 719468);
    if year < 1970 {
        assert(y0 <= 1969);
        lemma_leap_years_grow(y0, 1969);
    }
}

/// The leap years up to a year, by the era of 400 years and the year in it.
proof fn lemma_leap_years_of(era: int, yoe: int)
    requires
        0 <= era,
        0 <= yoe <= 399,
    ensures
        leap_years_through(yoe + era * 400) == 97 * era + yoe / 4 - yoe / 100,
{
}

/// One more year is one more leap year exactly when it is a leap year.
proof fn lemma_leap_year_step(year: int)
    requires
        year >= 0,
    ensures
        leap_years_through(year) == leap_years_through(year - 1) + if is_leap_year(year) {
            1int
        } else {
            0int
        },
{
}

/// Whether a year is a leap year shows in its place in the era.
proof fn lemma_leap_by_year_of_era(era: int, yoe: int)
    requires
        0 <= era,
        1 <= yoe <= 400,
    ensures
        is_leap_year(yoe + era * 400) == (yoe % 4 == 0 && (yoe % 100 != 0 || yoe == 400)),
{
}

/// Later years have no fewer days before them.
proof fn lemma_leap_years_grow(a: int, b: int)
    requires
        0 <= a <= b,
    ensures
        365 * a + leap_years_through(a) <= 365 * b + leap_years_through(b),
{
}

/// Where a month starts in a year that begins in March.
proof fn lemma_month_start(mp: int)
    requires
        0 <= mp <= 11,
    ensures
        (153 * mp + 2) / 5 == if mp == 0 {
            0int
        } else if mp == 1 {
            31
        } else if mp == 2 {
            61
        } else if mp == 3 {
            92
        } else if mp == 4 {
            122
        } else if mp == 5 {
            153
        } else if mp == 6 {
            184
        } else if mp == 7 {
            214
        } else if mp == 8 {
            245
        } else if mp == 9 {
            275
        } else if mp == 10 {
            306
        } else {
            337
        },
{
}

proof fn lemma_year_of_era(doe: int)
    requires
        0 <= doe < 146097,
    ensures
        ({
            let yoe = (doe - doe / 1460 + doe / 36524 - doe / 146096) / 365;
            let doy = doe - (365 * yoe + yoe / 4 - yoe / 100);
            &&& 0 <= yoe <= 399
            &&& 0 <= doy <= 365
            &&& doy == 365 ==> ((yoe + 1) % 4 == 0 && ((yoe + 1) % 100 != 0 || yoe + 1 == 400))
        }),
{
}

proof fn lemma_month_and_day(doy: int)
    requires
        0 <= doy <= 365,
    ensures
        ({
            let mp = (5 * doy + 2) / 153;
            let day = doy - (153 * mp + 2) / 5 + 1;
            &&& 0 <= mp <= 11
            &&& 1 <= day <= 31
            &&& (mp == 1 || mp == 3 || mp == 6 || mp == 8) ==> day <= 30
            &&& mp == 11 ==> day <= 29
            &&& mp == 11 && doy < 365 ==> day <= 28
        }),
{
}

/// The date of a day, counted from the first of January 1970.
pub fn days_to_date(days_since_epoch: u64) -> (r: (u64, u64, u64))
    ensures
        (r.0 as nat, r.1 as nat, r.2 as nat) == civil_from_days(days_since_epoch as nat),
{
    let z: u128 = days_since_epoch as u128 + 719468;
    let era: u128 = z / 146097;
    let doe: u128 = z - era * 146097;
    proof {
        lemma_year_of_era(doe as int);
    }
    let yoe: u128 = (doe - doe / 1460 + doe / 36524 - doe / 146096) / 365;
    let y: u128 = yoe + era * 400;
    let doy: u128 = doe - (365 * yoe + yoe / 4 - yoe / 100);
    proof {
        lemma_month_and_day(doy as int);
    }
    let mp: u128 = (5 * doy + 2) / 153;
    let d: u128 = doy - (153 * mp + 2) / 5 + 1;
    let m: u128 = if mp < 10 {
        mp + 3
    } else {
        mp - 9
    };
    let y: u128 = if m <= 2 {
        y + 1
    } else {
        y
    };
    (y as u64, m as u64, d as u64)
}

/// A number in decimal digits, with zeros before it where it has fewer
/// than `width` digits.
pub open spec fn padded(n: nat, width: nat) -> Seq<char> {
    if decimal(n).len() >= width {
        decimal(n)
    } else {
        Seq::new((width - decimal(n).len()) as nat, |i: int| '0') + decimal(n)
    }
}

fn push_padded(out: &mut String, n: u64, width: usize)
    ensures
        final(out)@ == old(out)@ + padded(n as nat, width as nat),
{
    let digits = decimal_text(n);
    let len = digits.as_str().unicode_len();
    let ghost start = out@;
    let mut i: usize = len;
    proof {
        assert(start =~= start + Seq::new(0, |k: int| '0'));
    }
    while i < width
        invariant
            len <= i,
            i <= width || i == len,
            out@ == start + Seq::new((i - len) as nat, |k: int| '0'),
        decreases width - i,
    {
        let ghost so_far = out@;
        push_char(out, '0');
        proof {
            assert(so_far.push('0') =~= start + Seq::new((i + 1 - len) as nat, |k: int| '0'));
        }
        i = i + 1;
    }
    out.append(digits.as_str());
    proof {
        if len >= width {
            assert(start + Seq::new(0, |k: int| '0') + digits@ =~= start + digits@);
        } else {
            assert(start + Seq::new((width - len) as nat, |k: int| '0') + digits@ =~= start + (
            Seq::new((width - len) as nat, |k: int| '0') + digits@));
        }
    }
}

/// A time in UTC as `YYYY-MM-DDTHH:MM:SS.sssZ`, given by the seconds since
/// the start of 1970 and the milliseconds of the second begun.
pub open spec fn iso8601(secs: u64, millis: u32) -> Seq<char> {
    let date = civil_from_days((secs / 86400) as nat);
    let time_of_day = secs % 86400;
    padded(date.0, 4) + "-"@ + padded(date.1, 2) + "-"@ + padded(date.2, 2) + "T"@ + padded(
        (time_of_day / 3600) as nat,
        2,
    ) + ":"@ + padded(((time_of_day % 3600) / 60) as nat, 2) + ":"@ + padded(
        (time_of_day % 60) as nat,
        2,
    ) + "."@ + padded(millis as nat, 3) + "Z"@
}

/// A time in UTC as `YYYY-MM-DDTHH:MM:SS.sssZ`.
pub fn iso8601_text(secs: u64, millis: u32) -> (r: String)
    ensures
        r@ == iso8601(secs, millis),
{
    let days = secs / 86400;
    let time_of_day = secs % 86400;
    let (year, month, day) = days_to_date(days);
    let mut out = String::new();
    push_padded(&mut out, year, 4);
    out.append("-");
    push_padded(&mut out, month, 2);
    out.append("-");
    push_padded(&mut out, day, 2);
    out.append("T");
    push_padded(&mut out, time_of_day / 3600, 2);
    out.append(":");
    push_padded(&mut out, (time_of_day % 3600) / 60, 2);
    out.append(":");
    push_padded(&mut out, time_of_day % 60, 2);
    out.append(".");
    push_padded(&mut out, millis as u64, 3);
    out.append("Z");
    proof {
        assert(out@ =~= iso8601(secs, millis));
    }
    out
}

/// What stands for a time before the start of 1970.
pub open spec fn epoch_text() -> Seq<char> {
    "1970-01-01T00:00:00.000Z"@
}

/// A time in UTC as `YYYY-MM-DDTHH:MM:SS.sssZ`; a time before the start of
/// 1970 reads as that start.
pub fn system_time_to_iso8601(time: SystemTime) -> (r: String)
    ensures
        r@ == match since_epoch(time) {
            Some((secs, millis)) => iso8601(secs, millis),
            None => epoch_text(),
        },
{
    match epoch_offset(time) {
        Some((secs, millis)) => iso8601_text(secs, millis),
        None => "1970-01-01T00:00:00.000Z".to_owned(),
    }
}

/// How the name of a session file ends.
pub open spec fn session_extension() -> Seq<char> {
    ".jsonl"@
}

/// The name of a session file: it ends as session files do, and it is not
/// the file of a helper that worked for another session.
pub open spec fn names_session(file_name: Seq<char>) -> bool {
    session_extension().is_suffix_of(file_name) && !"agent-"@.is_prefix_of(file_name)
}

/// A file name without the session extension, as often as it ends with it.
pub open spec fn without_extension(file_name: Seq<char>) -> Seq<char>
    decreases file_name.len(),
{
    if session_extension().len() > 0 && session_extension().is_suffix_of(file_name) {
        without_extension(file_name.take(file_name.len() - session_extension().len()))
    } else {
        file_name
    }
}

/// Whether a file name is that of a session file.
pub fn is_session_file(file_name: &str) -> (r: bool)
    ensures
        r == names_session(file_name@),
{
    has_suffix(file_name, ".jsonl") && !has_prefix(file_name, "agent-")
}

/// The identifier of the session that a file holds: the file's name without
/// its extension.
pub fn session_id(file_name: &str) -> (r: String)
    ensures
        r@ == without_extension(file_name@),
{
    proof {
        reveal_strlit(".jsonl");
    }
    let mut rest = file_name;
    loop
        invariant
            without_extension(rest@) == without_extension(file_name@),
            session_extension().len() == 6,
        decreases rest@.len(),
    {
        match before_suffix(rest, ".jsonl") {
            Some(shorter) => {
                rest = shorter;
            },
            None => {
                return rest.to_owned();
            },
        }
    }
}

/// What a directory says of one of its entries.
pub struct FileEntry {
    pub file_name: String,
    pub file_path: String,
    pub is_file: bool,
    /// When the entry was last changed; `None` where that cannot be read.
    pub modified: Option<SystemTime>,
}

/// Whether a directory entry is listed as a session.
pub open spec fn is_listed(entry: FileEntry) -> bool {
    names_session(entry.file_name@) && entry.is_file && entry.modified is Some
}

/// The session that a directory entry is listed as.
pub open spec fn session_of(entry: FileEntry) -> SessionView {
    SessionView {
        id: without_extension(entry.file_name@),
        name: None,
        timestamp: match since_epoch(entry.modified.unwrap()) {
            Some((secs, millis)) => iso8601(secs, millis),
            None => epoch_text(),
        },
        message_count: 0,
        file_path: entry.file_path@,
    }
}

/// The sessions among the entries of a directory, in the order of the
/// entries.
pub open spec fn listed_sessions(entries: Seq<FileEntry>) -> Seq<SessionView>
    decreases entries.len(),
{
    if entries.len() == 0 {
        Seq::empty()
    } else if is_listed(entries.last()) {
        listed_sessions(entries.drop_last()).push(session_of(entries.last()))
    } else {
        listed_sessions(entries.drop_last())
    }
}

/// The place at which a text goes into a list of texts that has the later
/// ones first: before the first text that stands before it in the order of
/// strings, behind all others.
pub open spec fn place_for(keys: Seq<Seq<char>>, key: Seq<char>) -> int
    decreases keys.len(),
{
    if keys.len() == 0 {
        0
    } else if comes_before(keys[0], key) {
        0
    } else {
        1 + place_for(keys.skip(1), key)
    }
}

/// No text of the list stands before a text behind it.
pub open spec fn later_first(keys: Seq<Seq<char>>) -> bool {
    forall|i: int, j: int|
        0 <= i < j < keys.len() ==> !comes_before(#[trigger] keys[i], #[trigger] keys[j])
}

/// The place for a text is the first place whose text stands before it.
pub proof fn lemma_place_for(keys: Seq<Seq<char>>, key: Seq<char>, at: int)
    requires
        0 <= at <= keys.len(),
        forall|k: int| 0 <= k < at ==> !comes_before(#[trigger] keys[k], key),
        at < keys.len() ==> comes_before(keys[at], key),
    ensures
        place_for(keys, key) == at,
    decreases at,
{
    if at > 0 {
        assert(!comes_before(keys[0], key));
        assert forall|k: int| 0 <= k < at - 1 implies !comes_before(
            #[trigger] keys.skip(1)[k],
            key,
        ) by {
            assert(keys.skip(1)[k] == keys[k + 1]);
        }
        if at < keys.len() {
            assert(keys.skip(1)[at - 1] == keys[at]);
        }
        lemma_place_for(keys.skip(1), key, at - 1);
    }
}

/// The place for a text lies in the list or at its end; no text before it
/// stands before the text, and the text at the place does.
pub proof fn lemma_place_for_is_first(keys: Seq<Seq<char>>, key: Seq<char>)
    ensures
        0 <= place_for(keys, key) <= keys.len(),
        forall|k: int| 0 <= k < place_for(keys, key) ==> !comes_before(#[trigger] keys[k], key),
        place_for(keys, key) < keys.len() ==> comes_before(keys[place_for(keys, key)], key),
    decreases keys.len(),
{
    if keys.len() > 0 && !comes_before(keys[0], key) {
        lemma_place_for_is_first(keys.skip(1), key);
        let at = place_for(keys, key);
        assert forall|k: int| 0 <= k < at implies !comes_before(#[trigger] keys[k], key) by {
            if k > 0 {
                assert(keys.skip(1)[k - 1] == keys[k]);
            }
        }
        if at < keys.len() {
            assert(keys.skip(1)[at - 1] == keys[at]);
        }
    }
}

/// A list that has the later texts first still has them first after a text
/// was put at its place.
pub proof fn lemma_insert_keeps_order(keys: Seq<Seq<char>>, key: Seq<char>)
    requires
        later_first(keys),
    ensures
        later_first(keys.insert(place_for(keys, key), key)),
{
    lemma_place_for_is_first(keys, key);
    let at = place_for(keys, key);
    let after = keys.insert(at, key);
    assert forall|i: int, j: int| 0 <= i < j < after.len() implies !comes_before(
        #[trigger] after[i],
        #[trigger] after[j],
    ) by {
        if j < at {
            assert(after[i] == keys[i] && after[j] == keys[j]);
        } else if j == at {
            assert(after[i] == keys[i]);
        } else if i == at {
            assert(after[j] == keys[j - 1]);
            if j - 1 > at {
                assert(!comes_before(keys[at], keys[j - 1]));
            }
            if comes_before(key, keys[j - 1]) {
                lemma_order_is_transitive(keys[at], key, keys[j - 1]);
                lemma_order_is_strict(keys[at], keys[at]);
            }
        } else if i < at {
            assert(after[i] == keys[i] && after[j] == keys[j - 1]);
        } else {
            assert(after[i] == keys[i - 1] && after[j] == keys[j - 1]);
        }
    }
}

/// The times at which the sessions of a list were changed.
pub open spec fn session_times(sessions: Seq<SessionView>) -> Seq<Seq<char>> {
    Seq::new(sessions.len(), |i: int| sessions[i].timestamp)
}

/// A list of sessions with one more session, behind all sessions that are
/// not older than it.
pub open spec fn with_session(sorted: Seq<SessionView>, session: SessionView) -> Seq<SessionView> {
    sorted.insert(place_for(session_times(sorted), session.timestamp), session)
}

/// The sessions with the one changed last first; sessions changed at one
/// time stay in their order.
pub open spec fn by_latest(sessions: Seq<SessionView>) -> Seq<SessionView>
    decreases sessions.len(),
{
    if sessions.len() == 0 {
        Seq::empty()
    } else {
        with_session(by_latest(sessions.drop_last()), sessions.last())
    }
}

/// Putting the latest first keeps every session, and leaves no session
/// before one that was changed later.
pub proof fn law_by_latest_sorts(sessions: Seq<SessionView>)
    ensures
        by_latest(sessions).to_multiset() == sessions.to_multiset(),
        later_first(session_times(by_latest(sessions))),
    decreases sessions.len(),
{
    if sessions.len() > 0 {
        let before = by_latest(sessions.drop_last());
        let last = sessions.last();
        law_by_latest_sorts(sessions.drop_last());
        lemma_place_for_is_first(session_times(before), last.timestamp);
        lemma_insert_keeps_order(session_times(before), last.timestamp);
        let at = place_for(session_times(before), last.timestamp);
        assert(session_times(before.insert(at, last)) =~= session_times(before).insert(
            at,
            last.timestamp,
        ));
        to_multiset_insert(before, at, last);
        assert(sessions.drop_last().push(last) =~= sessions);
        vstd::seq_lib::to_multiset_build(sessions.drop_last(), last);
    } else {
        assert(by_latest(sessions) =~= sessions);
    }
}

/// Puts a session into a list that has the latest first, behind all sessions
/// that are not older than it.
fn insert_session(sorted: &mut Vec<Session>, session: Session)
    ensures
        sessions_view(final(sorted)@) == with_session(sessions_view(old(sorted)@), session@),
{
    let ghost before = sessions_view(sorted@);
    let ghost times = session_times(before);
    let mut at: usize = 0;
    while at < sorted.len() && !text_less(
        sorted[at].timestamp.as_str(),
        session.timestamp.as_str(),
    )
        invariant
            at <= sorted@.len(),
            before == sessions_view(sorted@),
            times == session_times(before),
            forall|k: int| 0 <= k < at ==> !comes_before(#[trigger] times[k], session@.timestamp),
        decreases sorted@.len() - at,
    {
        at = at + 1;
    }
    proof {
        lemma_place_for(times, session@.timestamp, at as int);
    }
    sorted.insert(at, session);
    proof {
        assert(sessions_view(sorted@) =~= before.insert(at as int, session@));
    }
}

/// The sessions of a project: one for each entry of its directory that is a
/// session file whose time can be read, the one changed last first.
pub fn scan_project_sessions(entries: Vec<FileEntry>) -> (r: Vec<Session>)
    ensures
        sessions_view(r@) == by_latest(listed_sessions(entries@)),
{
    let ghost all = entries@;
    let mut sessions: Vec<Session> = Vec::new();
    proof {
        assert(sessions_view(sessions@) =~= by_latest(listed_sessions(all.take(0))));
    }
    for entry in it: entries
        invariant
            it.seq() == all,
            sessions_view(sessions@) == by_latest(listed_sessions(all.take(it.index() as int))),
    {
        proof {
            let next = all.take(it.index() + 1);
            assert(next.drop_last() =~= all.take(it.index() as int));
            assert(next.last() == entry);
            let listed = listed_sessions(all.take(it.index() as int));
            assert(listed.push(session_of(entry)).drop_last() =~= listed);
        }
        if is_session_file(entry.file_name.as_str()) && entry.is_file {
            if let Some(modified) = entry.modified {
                let session = Session {
                    id: session_id(entry.file_name.as_str()),
                    name: None,
                    timestamp: system_time_to_iso8601(modified),
                    message_count: 0,
                    file_path: entry.file_path,
                };
                insert_session(&mut sessions, session);
            }
        }
    }
    proof {
        assert(all.take(all.len() as int) =~= all);
    }
    sessions
}

/// The time of the session of a project that was changed last, or nothing
/// for a project without sessions.
pub open spec fn latest_change(project: ProjectView) -> Seq<char> {
    if project.sessions.len() > 0 {
        project.sessions[0].timestamp
    } else {
        Seq::empty()
    }
}

/// The times at which the projects of a list were changed last.
pub open spec fn project_times(projects: Seq<ProjectView>) -> Seq<Seq<char>> {
    Seq::new(projects.len(), |i: int| latest_change(projects[i]))
}

/// A list of projects with one more project, behind all projects that were
/// not changed before it.
pub open spec fn with_project(sorted: Seq<ProjectView>, project: ProjectView) -> Seq<ProjectView> {
    sorted.insert(place_for(project_times(sorted), latest_change(project)), project)
}

/// The projects with the one changed last first; projects changed at one
/// time stay in their order.
pub open spec fn projects_by_latest(projects: Seq<ProjectView>) -> Seq<ProjectView>
    decreases projects.len(),
{
    if projects.len() == 0 {
        Seq::empty()
    } else {
        with_project(projects_by_latest(projects.drop_last()), projects.last())
    }
}

/// Putting the latest first keeps every project, and leaves no project
/// before one that was changed later.
pub proof fn law_projects_by_latest_sorts(projects: Seq<ProjectView>)
    ensures
        projects_by_latest(projects).to_multiset() == projects.to_multiset(),
        later_first(project_times(projects_by_latest(projects))),
    decreases projects.len(),
{
    if projects.len() > 0 {
        let before = projects_by_latest(projects.drop_last());
        let last = projects.last();
        law_projects_by_latest_sorts(projects.drop_last());
        lemma_place_for_is_first(project_times(before), latest_change(last));
        lemma_insert_keeps_order(project_times(before), latest_change(last));
        let at = place_for(project_times(before), latest_change(last));
        assert(project_times(before.insert(at, last)) =~= project_times(before).insert(
            at,
            latest_change(last),
        ));
        to_multiset_insert(before, at, last);
        assert(projects.drop_last().push(last) =~= projects);
        vstd::seq_lib::to_multiset_build(projects.drop_last(), last);
    } else {
        assert(projects_by_latest(projects) =~= projects);
    }
}

fn latest_of(project: &Project) -> (r: &str)
    ensures
        r@ == latest_change(project@),
{
    proof {
        reveal_strlit("");
    }
    if project.sessions.len() > 0 {
        project.sessions[0].timestamp.as_str()
    } else {
        ""
    }
}

fn insert_project(sorted: &mut Vec<Project>, project: Project)
    ensures
        projects_view(final(sorted)@) == with_project(projects_view(old(sorted)@), project@),
{
    let ghost before = projects_view(sorted@);
    let ghost times = project_times(before);
    let ghost key = latest_change(project@);
    let mut at: usize = 0;
    while at < sorted.len() && !text_less(latest_of(&sorted[at]), latest_of(&project))
        invariant
            at <= sorted@.len(),
            before == projects_view(sorted@),
            times == project_times(before),
            key == latest_change(project@),
            forall|k: int| 0 <= k < at ==> !comes_before(#[trigger] times[k], key),
        decreases sorted@.len() - at,
    {
        at = at + 1;
    }
    proof {
        lemma_place_for(times, key, at as int);
    }
    sorted.insert(at, project);
    proof {
        assert(projects_view(sorted@) =~= before.insert(at as int, project@));
    }
}

/// What is read of one project directory: its name and its entries.
pub struct ProjectDir {
    pub dir_name: String,
    pub entries: Vec<FileEntry>,
}

/// The project of a directory: its name, the path that the name stands for
/// with `sep` between the components, and the sessions among its entries.
pub open spec fn project_of(dir: ProjectDir, sep: char) -> ProjectView {
    ProjectView {
        name: dir.dir_name@,
        path: decoded(dir.dir_name@, sep),
        sessions: by_latest(listed_sessions(dir.entries@)),
    }
}

/// The projects of a list of directories, in the order of the directories.
pub open spec fn projects_of(dirs: Seq<ProjectDir>, sep: char) -> Seq<ProjectView> {
    Seq::new(dirs.len(), |i: int| project_of(dirs[i], sep))
}

/// The projects of a list of project directories, the project with the
/// session changed last first. `sep` separates the components of the paths
/// that lie on no drive.
pub fn scan_with_separator(dirs: Vec<ProjectDir>, sep: char) -> (r: Vec<Project>)
    ensures
        projects_view(r@) == projects_by_latest(projects_of(dirs@, sep)),
{
    let ghost all = dirs@;
    let mut projects: Vec<Project> = Vec::new();
    proof {
        assert(projects_of(all.take(0), sep) =~= Seq::empty());
        assert(projects_view(projects@) =~= projects_by_latest(projects_of(all.take(0), sep)));
    }
    for dir in it: dirs
        invariant
            it.seq() == all,
            projects_view(projects@) == projects_by_latest(
                projects_of(all.take(it.index() as int), sep),
            ),
    {
        proof {
            let so_far = projects_of(all.take(it.index() as int), sep);
            let next = projects_of(all.take(it.index() + 1), sep);
            assert(next.drop_last() =~= so_far);
            assert(next.last() == project_of(dir, sep));
        }
        let path = decode_with_separator(dir.dir_name.as_str(), sep);
        let project = Project {
            name: dir.dir_name,
            path,
            sessions: scan_project_sessions(dir.entries),
        };
        insert_project(&mut projects, project);
    }
    proof {
        assert(all.take(all.len() as int) =~= all);
    }
    projects
}

/// The projects of a list of project directories, the project with the
/// session changed last first, with the paths as the machine writes them.
pub fn scan_all_projects(dirs: Vec<ProjectDir>) -> (r: Vec<Project>)
    ensures
        exists|sep: char| projects_view(r@) == projects_by_latest(projects_of(dirs@, sep)),
{
    scan_with_separator(dirs, main_separator())
}

} // verus!
