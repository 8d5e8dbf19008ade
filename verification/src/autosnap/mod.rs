//! The autosnap naming convention: a snapshot called
//! `<dataset>@autosnap_<date>_<time>_<period>` names its dataset, the instant
//! it was taken at and the retention period it belongs to.

pub mod report;

use crate::parser::{List, ListEntry, ListItem};
use crate::text::{
    append_range, chars_of, find_from, is_first_occurrence, lemma_first_occurrence_is, occurs_at,
    same_text, split_once, string_of,
};
use crate::time::{parse_utc_seconds, utc_seconds, Timestamp};
use vstd::prelude::*;
use vstd::std_specs::iter::IteratorSpec;

verus! {

/// The retention period of an automatic snapshot.
#[derive(Clone, Copy, Debug, PartialEq, Eq, Structural)]
pub enum Period {
    Hourly,
    Daily,
    Monthly,
    Yearly,
}

/// Why an identifier is not an autosnap name.
#[derive(Debug)]
pub enum AutosnapError {
    /// Fewer than three `_`-separated tokens follow the delimiter.
    MalformedSuffix,
    /// The identifier does not contain `@autosnap_`.
    DelimiterNotFound,
    /// The third token is none of the four period tags.
    InvalidPeriod,
    /// Date and time do not make a timestamp; holds the parser's diagnostic.
    InvalidTimestamp(chrono::format::ParseError),
}

/// The reason of an `AutosnapError`, without the diagnostic it may carry.
pub enum Rejection {
    MalformedSuffix,
    DelimiterNotFound,
    InvalidPeriod,
    InvalidTimestamp,
}

impl View for AutosnapError {
    type V = Rejection;

    open spec fn view(&self) -> Rejection {
        match self {
            AutosnapError::MalformedSuffix => Rejection::MalformedSuffix,
            AutosnapError::DelimiterNotFound => Rejection::DelimiterNotFound,
            AutosnapError::InvalidPeriod => Rejection::InvalidPeriod,
            AutosnapError::InvalidTimestamp(_) => Rejection::InvalidTimestamp,
        }
    }
}

/// What an autosnap name says: the mathematical content of an `AutosnapInfo`.
pub struct AutosnapEntry {
    pub dataset: Seq<char>,
    pub timestamp: Timestamp,
    pub period: Period,
}

/// A snapshot whose name follows the autosnap convention.
#[derive(Debug)]
pub struct AutosnapInfo {
    name: String,
    timestamp: Timestamp,
    period: Period,
}

/// The recognised snapshots of a listing, in the order of the listing.
#[derive(Debug)]
pub struct AutosnapList(Vec<AutosnapInfo>);

/// The text that parts the dataset from the rest of an autosnap name.
pub open spec fn delimiter() -> Seq<char> {
    "@autosnap_"@
}

/// The text that parts date, time and period.
pub open spec fn separator() -> Seq<char> {
    "_"@
}

/// The strftime pattern of `<date> <time>`.
pub open spec fn timestamp_pattern() -> Seq<char> {
    "%Y-%m-%d %H:%M:%S"@
}

/// Date and time joined by one space, as the pattern wants them.
pub open spec fn timestamp_text(date: Seq<char>, time: Seq<char>) -> Seq<char> {
    date.push(' ') + time
}

/// The first three `_`-separated tokens of `suffix`; `None` when it has
/// fewer than three. Whatever follows the third token is not looked at.
pub open spec fn suffix_tokens(suffix: Seq<char>) -> Option<(Seq<char>, Seq<char>, Seq<char>)> {
    match split_once(suffix, separator()) {
        None => None,
        Some((date, after_date)) => match split_once(after_date, separator()) {
            None => None,
            Some((time, after_time)) => Some(
                (
                    date,
                    time,
                    match split_once(after_time, separator()) {
                        Some((period, _)) => period,
                        None => after_time,
                    },
                ),
            ),
        },
    }
}

/// The entry that an identifier stands for, or the reason why it stands for
/// none. The dataset is what precedes the leftmost delimiter; the checks come
/// in the order delimiter, token count, timestamp, period.
pub open spec fn recognize(identifier: Seq<char>) -> Result<AutosnapEntry, Rejection> {
    match split_once(identifier, delimiter()) {
        None => Err(Rejection::DelimiterNotFound),
        Some((dataset, suffix)) => match suffix_tokens(suffix) {
            None => Err(Rejection::MalformedSuffix),
            Some((date, time, tag)) => match utc_seconds(
                timestamp_text(date, time),
                timestamp_pattern(),
            ) {
                None => Err(Rejection::InvalidTimestamp),
                Some(secs) => match Period::of_tag(tag) {
                    None => Err(Rejection::InvalidPeriod),
                    Some(period) => Ok(
                        AutosnapEntry { dataset, timestamp: Timestamp { secs }, period },
                    ),
                },
            },
        },
    }
}

/// The entries of the identifiers that are autosnap names, in order; the
/// other identifiers leave no trace.
pub open spec fn recognized(identifiers: Seq<Seq<char>>) -> Seq<AutosnapEntry>
    decreases identifiers.len(),
{
    if identifiers.len() == 0 {
        Seq::empty()
    } else {
        let before = recognized(identifiers.drop_last());
        match recognize(identifiers.last()) {
            Ok(entry) => before.push(entry),
            Err(_) => before,
        }
    }
}

/// The names of the entries of a listing.
pub open spec fn names(entries: Seq<ListEntry>) -> Seq<Seq<char>> {
    entries.map_values(|entry: ListEntry| entry.name)
}

/// An identifier without the delimiter is rejected for that reason, whatever
/// else it holds.
pub proof fn lemma_recognize_without_delimiter(identifier: Seq<char>)
    requires
        forall|i: int| !occurs_at(identifier, delimiter(), i),
    ensures
        recognize(identifier) == Err::<AutosnapEntry, Rejection>(Rejection::DelimiterNotFound),
{
}

/// A text cut at a separator that its head does not hold gives back head
/// and tail.
proof fn lemma_split_at_separator(head: Seq<char>, tail: Seq<char>)
    requires
        !head.contains('_'),
    ensures
        split_once(head + separator() + tail, separator()) == Some((head, tail)),
{
    reveal_strlit("_");
    let s = head + separator() + tail;
    let at = head.len() as int;
    assert(separator() =~= seq!['_']);
    assert(s.subrange(at, at + 1) =~= separator());
    assert forall|j: int| 0 <= j < at implies !occurs_at(s, separator(), j) by {
        if occurs_at(s, separator(), j) {
            assert(s.subrange(j, j + 1)[0] == '_');
            assert(head[j] == '_');
        }
    }
    assert(is_first_occurrence(s, separator(), at));
    lemma_first_occurrence_is(s, separator(), at);
    assert(s.take(at) =~= head);
    assert(s.skip(at + 1) =~= tail);
}

/// The four period tags hold no separator.
proof fn lemma_tag_without_separator(tag: Seq<char>)
    requires
        Period::of_tag(tag) is Some,
    ensures
        !tag.contains('_'),
        split_once(tag, separator()) is None,
{
    reveal_strlit("_");
    reveal_strlit("hourly");
    reveal_strlit("daily");
    reveal_strlit("monthly");
    reveal_strlit("yearly");
    assert(!tag.contains('_'));
    assert forall|j: int| !occurs_at(tag, separator(), j) by {
        if occurs_at(tag, separator(), j) {
            assert(tag.subrange(j, j + 1)[0] == '_');
            assert(tag[j] == '_');
        }
    }
}

/// A dataset, the delimiter, a date, a time and a period tag, joined by
/// separators, are recognised as just that: the entry holds the dataset
/// unchanged, the instant that date and time denote, and the period of the
/// tag. The dataset must not hold the delimiter itself, nor date or time a
/// separator.
pub proof fn lemma_recognize_composed(
    dataset: Seq<char>,
    date: Seq<char>,
    time: Seq<char>,
    tag: Seq<char>,
)
    requires
        forall|i: int| !occurs_at(dataset, delimiter(), i),
        !date.contains('_'),
        !time.contains('_'),
        utc_seconds(timestamp_text(date, time), timestamp_pattern()) is Some,
        Period::of_tag(tag) is Some,
    ensures
        recognize(dataset + delimiter() + date + separator() + time + separator() + tag) == Ok::<
            AutosnapEntry,
            Rejection,
        >(
            AutosnapEntry {
                dataset,
                timestamp: Timestamp {
                    secs: utc_seconds(timestamp_text(date, time), timestamp_pattern())->0,
                },
                period: Period::of_tag(tag)->0,
            },
        ),
{
    reveal_strlit("@autosnap_");
    let suffix = date + separator() + time + separator() + tag;
    let identifier = dataset + delimiter() + date + separator() + time + separator() + tag;
    let at = dataset.len() as int;
    let width = delimiter().len() as int;
    assert(width == 10);
    assert(identifier.subrange(at, at + width) =~= delimiter());
    assert forall|j: int| 0 <= j < at implies !occurs_at(identifier, delimiter(), j) by {
        if occurs_at(identifier, delimiter(), j) {
            let window = identifier.subrange(j, j + width);
            if j + width <= at {
                assert(dataset.subrange(j, j + width) =~= window);
                assert(occurs_at(dataset, delimiter(), j));
            } else {
                assert(window[at - j] == identifier[at]);
                assert(identifier[at] == delimiter()[0]);
            }
        }
    }
    assert(is_first_occurrence(identifier, delimiter(), at));
    lemma_first_occurrence_is(identifier, delimiter(), at);
    assert(identifier.take(at) =~= dataset);
    assert(identifier.skip(at + width) =~= suffix);
    assert(suffix =~= date + separator() + (time + separator() + tag));
    lemma_split_at_separator(date, time + separator() + tag);
    lemma_split_at_separator(time, tag);
    lemma_tag_without_separator(tag);
}

/// What `recognized` keeps of two lists of identifiers, one after the other,
/// is what it keeps of each.
pub proof fn lemma_recognized_add(a: Seq<Seq<char>>, b: Seq<Seq<char>>)
    ensures
        recognized(a + b) == recognized(a) + recognized(b),
    decreases b.len(),
{
    if b.len() == 0 {
        assert(a + b =~= a);
        assert(recognized(a) + recognized(b) =~= recognized(a));
    } else {
        assert((a + b).drop_last() =~= a + b.drop_last());
        assert((a + b).last() == b.last());
        lemma_recognized_add(a, b.drop_last());
        match recognize(b.last()) {
            Ok(entry) => {
                assert(recognized(a + b) =~= recognized(a) + recognized(b));
            },
            Err(_) => {},
        }
    }
}

/// An identifier that is not an autosnap name changes nothing: with it or
/// without it in the list, the same entries are recognised.
pub proof fn lemma_rejected_leaves_no_trace(
    before: Seq<Seq<char>>,
    identifier: Seq<char>,
    after: Seq<Seq<char>>,
)
    requires
        recognize(identifier) is Err,
    ensures
        recognized(before.push(identifier) + after) == recognized(before + after),
{
    lemma_recognized_add(before.push(identifier), after);
    lemma_recognized_add(before, after);
    assert(before.push(identifier).drop_last() =~= before);
}

impl Period {
    /// The period that a tag names; tags are matched exactly and in lower case.
    pub open spec fn of_tag(tag: Seq<char>) -> Option<Period> {
        if tag == "hourly"@ {
            Some(Period::Hourly)
        } else if tag == "daily"@ {
            Some(Period::Daily)
        } else if tag == "monthly"@ {
            Some(Period::Monthly)
        } else if tag == "yearly"@ {
            Some(Period::Yearly)
        } else {
            None
        }
    }

    /// Reads a period tag; any text but the four tags is an `InvalidPeriod`.
    pub fn from_str(s: &str) -> (r: Result<Period, AutosnapError>)
        ensures
            match Period::of_tag(s@) {
                Some(period) => r == Ok::<Period, AutosnapError>(period),
                None => r == Err::<Period, AutosnapError>(AutosnapError::InvalidPeriod),
            },
    {
        if same_text(s, "hourly") {
            Ok(Period::Hourly)
        } else if same_text(s, "daily") {
            Ok(Period::Daily)
        } else if same_text(s, "monthly") {
            Ok(Period::Monthly)
        } else if same_text(s, "yearly") {
            Ok(Period::Yearly)
        } else {
            Err(AutosnapError::InvalidPeriod)
        }
    }
}

impl View for AutosnapInfo {
    type V = AutosnapEntry;

    closed spec fn view(&self) -> AutosnapEntry {
        AutosnapEntry { dataset: self.name@, timestamp: self.timestamp, period: self.period }
    }
}

impl AutosnapInfo {
    /// The dataset that the snapshot belongs to.
    pub fn name(&self) -> (name: &str)
        ensures
            name@ == self@.dataset,
    {
        self.name.as_str()
    }

    /// The instant that the snapshot's name records.
    pub fn timestamp(&self) -> (timestamp: Timestamp)
        ensures
            timestamp == self@.timestamp,
    {
        self.timestamp
    }

    /// The retention period of the snapshot.
    pub fn period(&self) -> (period: Period)
        ensures
            period == self@.period,
    {
        self.period
    }

    /// Completes the recognition once the timestamp parser has answered:
    /// its error is passed on, else the period tag is read and the entry made.
    pub fn from_parts(name: &str, parsed: Result<i64, chrono::format::ParseError>, tag: &str) -> (r:
        Result<AutosnapInfo, AutosnapError>)
        ensures
            match parsed {
                Err(diagnostic) => r == Err::<AutosnapInfo, AutosnapError>(
                    AutosnapError::InvalidTimestamp(diagnostic),
                ),
                Ok(secs) => match Period::of_tag(tag@) {
                    None => r == Err::<AutosnapInfo, AutosnapError>(AutosnapError::InvalidPeriod),
                    Some(period) => r matches Ok(info) && info@ == (AutosnapEntry {
                        dataset: name@,
                        timestamp: Timestamp { secs },
                        period,
                    }),
                },
            },
    {
        let secs = match parsed {
            Ok(secs) => secs,
            Err(diagnostic) => {
                return Err(AutosnapError::InvalidTimestamp(diagnostic));
            },
        };
        match Period::from_str(tag) {
            Ok(period) => Ok(
                AutosnapInfo {
                    name: name.to_owned(),
                    timestamp: Timestamp::from_unix_seconds(secs),
                    period,
                },
            ),
            Err(e) => Err(e),
        }
    }

    /// Recognises the name of a listed snapshot.
    pub fn try_from(value: ListItem) -> (r: Result<AutosnapInfo, AutosnapError>)
        ensures
            match recognize(value@.name) {
                Ok(entry) => r matches Ok(info) && info@ == entry,
                Err(why) => r matches Err(e) && e@ == why,
            },
    {
        AutosnapInfo::from_str(value.name())
    }

    /// Recognises an autosnap name.
    pub fn from_str(s: &str) -> (r: Result<AutosnapInfo, AutosnapError>)
        ensures
            match recognize(s@) {
                Ok(entry) => r matches Ok(info) && info@ == entry,
                Err(why) => r matches Err(e) && e@ == why,
            },
    {
        let chars = chars_of(s);
        let delim = chars_of("@autosnap_");
        let sep = chars_of("_");
        assert(chars@.skip(0) == chars@);
        let at = match find_from(&chars, 0, &delim) {
            Some(at) => at,
            None => {
                return Err(AutosnapError::DelimiterNotFound);
            },
        };
        let date_from = at + delim.len();
        let date_to = match find_from(&chars, date_from, &sep) {
            Some(at) => at,
            None => {
                return Err(AutosnapError::MalformedSuffix);
            },
        };
        let time_from = date_to + sep.len();
        let ghost suffix = chars@.skip(date_from as int);
        assert(suffix.skip(date_to - date_from + sep.len()) == chars@.skip(time_from as int));
        let time_to = match find_from(&chars, time_from, &sep) {
            Some(at) => at,
            None => {
                return Err(AutosnapError::MalformedSuffix);
            },
        };
        let tag_from = time_to + sep.len();
        let ghost after_date = chars@.skip(time_from as int);
        assert(after_date.skip(time_to - time_from + sep.len()) == chars@.skip(tag_from as int));
        let tag_to = match find_from(&chars, tag_from, &sep) {
            Some(at) => at,
            None => chars.len(),
        };
        let ghost after_time = chars@.skip(tag_from as int);
        let name = string_of(&chars, 0, at);
        let mut text = string_of(&chars, date_from, date_to);
        text.push(' ');
        append_range(&mut text, &chars, time_from, time_to);
        let tag = string_of(&chars, tag_from, tag_to);
        proof {
            assert(chars@.take(at as int) == chars@.subrange(0, at as int));
            assert(suffix.take(date_to - date_from) == chars@.subrange(
                date_from as int,
                date_to as int,
            ));
            assert(after_date.take(time_to - time_from) == chars@.subrange(
                time_from as int,
                time_to as int,
            ));
            assert(after_time.take(tag_to - tag_from) == chars@.subrange(
                tag_from as int,
                tag_to as int,
            ));
            assert(after_time == chars@.subrange(tag_from as int, chars@.len() as int));
        }
        let parsed = parse_utc_seconds(text.as_str(), "%Y-%m-%d %H:%M:%S");
        AutosnapInfo::from_parts(name.as_str(), parsed, tag.as_str())
    }
}

impl View for AutosnapList {
    type V = Seq<AutosnapEntry>;

    closed spec fn view(&self) -> Seq<AutosnapEntry> {
        self.0@.map_values(|info: AutosnapInfo| info@)
    }
}

impl AutosnapList {
    /// The list of the given snapshots.
    pub fn new(snapshots: Vec<AutosnapInfo>) -> (list: AutosnapList)
        ensures
            list@ == snapshots@.map_values(|info: AutosnapInfo| info@),
    {
        AutosnapList(snapshots)
    }

    /// The number of snapshots.
    pub fn len(&self) -> (n: usize)
        ensures
            n == self@.len(),
    {
        self.0.len()
    }

    /// The snapshot at position `i`.
    pub fn get(&self, i: usize) -> (info: &AutosnapInfo)
        requires
            i < self@.len(),
        ensures
            info@ == self@[i as int],
    {
        &self.0[i]
    }

    /// An iterator over the snapshots, first to last.
    pub fn iter(&self) -> (it: std::slice::Iter<'_, AutosnapInfo>)
        ensures
            it.remaining().len() == self@.len(),
            forall|i: int| 0 <= i < self@.len() ==> (#[trigger] it.remaining()[i])@ == self@[i],
            IteratorSpec::decrease(&it) is Some,
            IteratorSpec::initial_value_relation(&it, &it),
    {
        broadcast use vstd::std_specs::slice::axiom_spec_slice_iter;

        self.0.as_slice().iter()
    }

    /// Keeps the snapshots of a listing whose names follow the autosnap
    /// convention and drops the others without a word.
    pub fn try_from(list: List) -> (r: Result<AutosnapList, AutosnapError>)
        ensures
            r matches Ok(snapshots) && snapshots@ == recognized(names(list@)),
    {
        let mut kept: Vec<AutosnapInfo> = Vec::new();
        let mut i: usize = 0;
        while i < list.len()
            invariant
                i <= list@.len(),
                kept@.map_values(|info: AutosnapInfo| info@) == recognized(
                    names(list@).take(i as int),
                ),
            decreases list@.len() - i,
        {
            proof {
                let done = names(list@).take(i + 1);
                assert(done.drop_last() == names(list@).take(i as int));
                assert(done.last() == list@[i as int].name);
            }
            match AutosnapInfo::from_str(list.get(i).name()) {
                Ok(info) => {
                    assert(kept@.push(info).map_values(|info: AutosnapInfo| info@)
                        == kept@.map_values(|info: AutosnapInfo| info@).push(info@));
                    kept.push(info);
                },
                Err(_) => {},
            }
            i += 1;
        }
        assert(names(list@).take(list@.len() as int) == names(list@));
        Ok(AutosnapList(kept))
    }
}

} // verus!
