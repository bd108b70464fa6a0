//! The input driver: from the lines of an extract to the text of the report.

use vstd::prelude::*;
use vstd::string::*;
use crate::clock::{Clock, InstantModel};
use crate::error::{Error, ErrorKind};
use crate::interval::{
    built_from, inclusion_of, interval_at, labels_of, record_failure, Interval, IntervalFactory,
    IntervalModel,
};
use crate::json::json_array_texts;
use crate::options::Options;
use crate::render::render_text;
use crate::report::{models, Report};
use crate::sums::report_of;
use crate::text::{
    all_removed, clean, find_char, first_index_of, lemma_first_index_is, lemma_first_index_of,
    lemma_stripped_clean, lemma_stripped_padded, same_text, strip, stripped, texts_of, trim,
    trimmed, Trim,
};

verus! {

/// Settings of a run; there are none.
#[derive(Clone, Copy, Debug, Default)]
pub struct Config {}

/// The key of the entry that lists the projects.
pub open spec fn projects_key() -> Seq<char> {
    "timesheet.projects"@
}

/// The line that ends the header.
pub open spec fn open_mark() -> Seq<char> {
    "["@
}

/// The line that ends the body.
pub open spec fn close_mark() -> Seq<char> {
    "]"@
}

/// Whether a trimmed line is passed over: a blank line, or the line that
/// ends the body.
pub open spec fn passed_over(line: Seq<char>) -> bool {
    line.len() == 0 || line == close_mark()
}

/// The key and value of a trimmed header line, split at its first colon:
/// the key without surrounding whitespace and colons, the value without
/// surrounding whitespace. `None` where the line has no colon.
pub open spec fn header_entry(line: Seq<char>) -> Option<(Seq<char>, Seq<char>)> {
    match first_index_of(line, ':') {
        Some(i) => Some(
            (
                stripped(trimmed(line.subrange(0, i)), Trim::Exactly(':')),
                trimmed(line.subrange(i + 1, line.len() as int)),
            ),
        ),
        None => None,
    }
}

/// The JSON text of the record on a trimmed body line: the line without the
/// commas at its ends.
pub open spec fn record_text(line: Seq<char>) -> Seq<char> {
    stripped(line, Trim::Exactly(','))
}

/// A header line that holds a key, a colon and a value, with any
/// whitespace around each of them, splits into that key and that value: the
/// key and the value come out trimmed. The key holds no colon; the value may.
pub proof fn lemma_header_entry_of_padded(
    key: Seq<char>,
    value: Seq<char>,
    w1: Seq<char>,
    w2: Seq<char>,
    w3: Seq<char>,
    w4: Seq<char>,
)
    requires
        all_removed(w1, Trim::Whitespace),
        all_removed(w2, Trim::Whitespace),
        all_removed(w3, Trim::Whitespace),
        all_removed(w4, Trim::Whitespace),
        clean(key, Trim::Whitespace),
        clean(value, Trim::Whitespace),
        !key.contains(':'),
    ensures
        header_entry(trimmed(w1 + key + w2 + seq![':'] + w3 + value + w4)) == Some((key, value)),
{
    let space = Trim::Whitespace;
    let colon = Trim::Exactly(':');
    let line = w1 + key + w2 + seq![':'] + w3 + value + w4;
    let a = if key.len() == 0 {
        Seq::<char>::empty()
    } else {
        w2
    };
    let b = if value.len() == 0 {
        Seq::<char>::empty()
    } else {
        w3
    };
    let before = if key.len() == 0 {
        w1 + w2
    } else {
        w1
    };
    let after = if value.len() == 0 {
        w3 + w4
    } else {
        w4
    };
    let core = key + a + seq![':'] + b + value;
    assert(line =~= before + core + after);
    assert(!space.removes(':'));
    assert(core[0] == if key.len() == 0 {
        ':'
    } else {
        key[0]
    });
    assert(core.last() == if value.len() == 0 {
        ':'
    } else {
        value.last()
    });
    lemma_stripped_padded(before, core, after, space);
    let at = (key.len() + a.len()) as int;
    assert(core[at] == ':');
    assert forall|k: int| 0 <= k < at implies #[trigger] core[k] != ':' by {
        if k < key.len() {
            assert(core[k] == key[k]);
            assert(key.contains(key[k]));
        } else {
            assert(core[k] == a[k - key.len()]);
            assert(space.removes(a[k - key.len()]));
        }
    }
    lemma_first_index_is(core, ':', at);
    assert(core.subrange(0, at) =~= Seq::<char>::empty() + key + a);
    lemma_stripped_padded(Seq::empty(), key, a, space);
    assert(core.subrange(at + 1, core.len() as int) =~= b + value + Seq::<char>::empty());
    lemma_stripped_padded(b, value, Seq::empty(), space);
    assert(clean(key, colon)) by {
        if key.len() > 0 {
            assert(key.contains(key[0]));
            assert(key.contains(key.last()));
        }
    }
    lemma_stripped_clean(key, colon);
}

/// Splits a header line into key and value.
pub fn parse_header_line(line: &str) -> (r: Result<(String, String), Error>)
    ensures
        match header_entry(trimmed(line@)) {
            Some((key, value)) => r matches Ok(entry) && entry.0@ == key && entry.1@ == value,
            None => r matches Err(e) && e@ == ErrorKind::FailedToParseConfigLine,
        },
{
    let line = trim(line);
    match find_char(line, ':') {
        Some(i) => {
            proof {
                lemma_first_index_of(line@, ':');
            }
            let n: usize = line.unicode_len();
            let key = strip(trim(line.substring_char(0, i)), Trim::Exactly(':'));
            let value = trim(line.substring_char(i + 1, n));
            Ok((key.to_owned(), value.to_owned()))
        },
        None => Err(Error::new(ErrorKind::FailedToParseConfigLine)),
    }
}

/// How the header of an extract ends.
pub enum HeaderEnd {
    /// A line is malformed, or the projects are missing or malformed.
    Failed(ErrorKind),
    /// The lines end before the header does.
    Unfinished,
    /// The header ends before line `next`, with the projects `registry`.
    Body { registry: Seq<Seq<char>>, next: int },
}

/// How the header that goes on at line `from` ends, given the entries read
/// so far.
pub open spec fn header_of(
    lines: Seq<Seq<char>>,
    from: int,
    options: Map<Seq<char>, Seq<char>>,
) -> HeaderEnd
    decreases lines.len() - from,
{
    if from < 0 || from >= lines.len() {
        HeaderEnd::Unfinished
    } else {
        let line = trimmed(lines[from]);
        if line == open_mark() {
            if options.contains_key(projects_key()) {
                match json_array_texts(options[projects_key()]) {
                    Some(texts) => HeaderEnd::Body { registry: labels_of(texts), next: from + 1 },
                    None => HeaderEnd::Failed(ErrorKind::FailedToParseConfig),
                }
            } else {
                HeaderEnd::Failed(ErrorKind::NoProjectsDefinedInConfig)
            }
        } else if passed_over(line) {
            header_of(lines, from + 1, options)
        } else {
            match header_entry(line) {
                Some((key, value)) => header_of(lines, from + 1, options.insert(key, value)),
                None => HeaderEnd::Failed(ErrorKind::FailedToParseConfigLine),
            }
        }
    }
}

/// What one body line yields by a clock that stands still at `now`:
/// nothing where the line is passed over, else the interval of its record,
/// or why the record yields none.
pub open spec fn line_at(registry: Seq<Seq<char>>, line: Seq<char>, now: InstantModel) -> Result<
    Option<IntervalModel>,
    ErrorKind,
> {
    let line = trimmed(line);
    if passed_over(line) {
        Ok(None)
    } else {
        match interval_at(Some(registry), record_text(line), now) {
            Ok(interval) => Ok(Some(interval)),
            Err(kind) => Err(kind),
        }
    }
}

/// The intervals of the body lines `lines` by a clock that stands still at
/// `now`, or the failure of the first record that yields none.
pub open spec fn body_at(
    registry: Seq<Seq<char>>,
    lines: Seq<Seq<char>>,
    now: InstantModel,
) -> Result<Seq<IntervalModel>, ErrorKind>
    decreases lines.len(),
{
    if lines.len() == 0 {
        Ok(Seq::empty())
    } else {
        match body_at(registry, lines.drop_last(), now) {
            Err(kind) => Err(kind),
            Ok(intervals) => match line_at(registry, lines.last(), now) {
                Ok(Some(interval)) => Ok(intervals.push(interval)),
                Ok(None) => Ok(intervals),
                Err(kind) => Err(kind),
            },
        }
    }
}

/// Whether `intervals` are what the records on the body lines `lines` may
/// yield, one for each record and in their order, whatever the clock says.
pub open spec fn body_yields(
    registry: Seq<Seq<char>>,
    lines: Seq<Seq<char>>,
    intervals: Seq<IntervalModel>,
) -> bool
    decreases lines.len(),
{
    if lines.len() == 0 {
        intervals.len() == 0
    } else {
        let line = trimmed(lines.last());
        if passed_over(line) {
            body_yields(registry, lines.drop_last(), intervals)
        } else {
            &&& intervals.len() > 0
            &&& body_yields(registry, lines.drop_last(), intervals.drop_last())
            &&& inclusion_of(record_text(line)) matches Some(inclusion) && built_from(
                Some(registry),
                inclusion,
                intervals.last(),
            )
        }
    }
}

/// Why the first record on the body lines `lines` that yields no interval
/// whatever the clock says does not, if there is such a record.
pub open spec fn body_failure(registry: Seq<Seq<char>>, lines: Seq<Seq<char>>) -> Option<
    ErrorKind,
>
    decreases lines.len(),
{
    if lines.len() == 0 {
        None
    } else {
        match body_failure(registry, lines.drop_last()) {
            Some(kind) => Some(kind),
            None => {
                let line = trimmed(lines.last());
                if passed_over(line) {
                    None
                } else {
                    record_failure(Some(registry), record_text(line))
                }
            },
        }
    }
}

/// The text of the report on no intervals.
pub open spec fn empty_report_text() -> Seq<char> {
    render_text(report_of(Seq::empty()))
}

/// The outcome of a run on `lines` by a clock that stands still at `now`:
/// the text of the report, or the first failure.
pub open spec fn run_outcome_at(lines: Seq<Seq<char>>, now: InstantModel) -> Result<
    Seq<char>,
    ErrorKind,
> {
    match header_of(lines, 0, Map::empty()) {
        HeaderEnd::Failed(kind) => Err(kind),
        HeaderEnd::Unfinished => Ok(empty_report_text()),
        HeaderEnd::Body { registry, next } => match body_at(
            registry,
            lines.skip(next),
            now,
        ) {
            Ok(intervals) => Ok(render_text(report_of(intervals))),
            Err(kind) => Err(kind),
        },
    }
}

/// Why a run on `lines` fails whatever the clock says, if that is so.
pub open spec fn run_failure(lines: Seq<Seq<char>>) -> Option<ErrorKind> {
    match header_of(lines, 0, Map::empty()) {
        HeaderEnd::Failed(kind) => Some(kind),
        HeaderEnd::Unfinished => None,
        HeaderEnd::Body { registry, next } => body_failure(registry, lines.skip(next)),
    }
}

/// Whether `text` is a report that a run on `lines` may produce, whatever
/// the clock says.
pub open spec fn run_yields(lines: Seq<Seq<char>>, text: Seq<char>) -> bool {
    match header_of(lines, 0, Map::empty()) {
        HeaderEnd::Failed(_) => false,
        HeaderEnd::Unfinished => text == empty_report_text(),
        HeaderEnd::Body { registry, next } => exists|intervals: Seq<IntervalModel>|
            #[trigger] body_yields(registry, lines.skip(next), intervals) && text == render_text(
                report_of(intervals),
            ),
    }
}

/// Body lines that are all passed over yield no interval.
proof fn lemma_body_of_nothing(registry: Seq<Seq<char>>, lines: Seq<Seq<char>>, now: InstantModel)
    requires
        forall|i: int| 0 <= i < lines.len() ==> passed_over(trimmed(#[trigger] lines[i])),
    ensures
        body_at(registry, lines, now) == Ok::<Seq<IntervalModel>, ErrorKind>(Seq::empty()),
        body_failure(registry, lines) is None,
        forall|intervals: Seq<IntervalModel>| #[trigger]
            body_yields(registry, lines, intervals) ==> intervals.len() == 0,
    decreases lines.len(),
{
    if lines.len() > 0 {
        let rest = lines.drop_last();
        assert forall|i: int| 0 <= i < rest.len() implies passed_over(
            trimmed(#[trigger] rest[i]),
        ) by {
            assert(rest[i] == lines[i]);
        }
        lemma_body_of_nothing(registry, rest, now);
        assert(passed_over(trimmed(lines[lines.len() - 1])));
        assert forall|intervals: Seq<IntervalModel>| #[trigger]
            body_yields(registry, lines, intervals) implies intervals.len() == 0 by {
            assert(body_yields(registry, rest, intervals));
        }
    }
}

/// An extract whose body holds no record gives the report on no intervals,
/// by every clock: the header, two separators, and totals that are all
/// blank.
pub proof fn lemma_empty_body(lines: Seq<Seq<char>>, now: InstantModel)
    requires
        header_of(lines, 0, Map::empty()) matches HeaderEnd::Body { registry, next } && forall|
            i: int,
        |
            next <= i < lines.len() ==> passed_over(trimmed(#[trigger] lines[i])),
    ensures
        run_outcome_at(lines, now) == Ok::<Seq<char>, ErrorKind>(empty_report_text()),
        run_failure(lines) is None,
        forall|text: Seq<char>| #[trigger] run_yields(lines, text) ==> text == empty_report_text(),
{
    if let HeaderEnd::Body { registry, next } = header_of(lines, 0, Map::empty()) {
        lemma_header_end(lines, 0, Map::empty());
        let body = lines.skip(next);
        assert forall|i: int| 0 <= i < body.len() implies passed_over(
            trimmed(#[trigger] body[i]),
        ) by {
            assert(body[i] == lines[i + next]);
        }
        lemma_body_of_nothing(registry, body, now);
        assert forall|text: Seq<char>| #[trigger] run_yields(lines, text) implies text
            == empty_report_text() by {
            let intervals = choose|intervals: Seq<IntervalModel>| #[trigger]
                body_yields(registry, body, intervals) && text == render_text(
                    report_of(intervals),
                );
            assert(intervals =~= Seq::empty());
        }
    }
}

/// The body begins after a line of the extract.
proof fn lemma_header_end(lines: Seq<Seq<char>>, from: int, options: Map<Seq<char>, Seq<char>>)
    requires
        0 <= from,
    ensures
        header_of(lines, from, options) matches HeaderEnd::Body { registry, next } ==> from < next
            <= lines.len(),
    decreases lines.len() - from,
{
    if from < lines.len() {
        let line = trimmed(lines[from]);
        if line == open_mark() {
        } else if passed_over(line) {
            lemma_header_end(lines, from + 1, options);
        } else {
            match header_entry(line) {
                Some((key, value)) => {
                    lemma_header_end(lines, from + 1, options.insert(key, value));
                },
                None => {},
            }
        }
    }
}

/// A failure among the first body lines is the failure of the whole body.
proof fn lemma_body_failure_prefix(registry: Seq<Seq<char>>, lines: Seq<Seq<char>>, count: int)
    requires
        0 <= count <= lines.len(),
        body_failure(registry, lines.take(count)) is Some,
    ensures
        body_failure(registry, lines) == body_failure(registry, lines.take(count)),
    decreases lines.len() - count,
{
    if count == lines.len() {
        assert(lines.take(count) =~= lines);
    } else {
        assert(lines.take(count + 1).drop_last() =~= lines.take(count));
        lemma_body_failure_prefix(registry, lines, count + 1);
    }
}

/// By a clock that stands still, a failure among the first body lines is the
/// failure of the whole body.
proof fn lemma_body_at_prefix(
    registry: Seq<Seq<char>>,
    lines: Seq<Seq<char>>,
    now: InstantModel,
    count: int,
)
    requires
        0 <= count <= lines.len(),
        body_at(registry, lines.take(count), now) is Err,
    ensures
        body_at(registry, lines, now) == body_at(registry, lines.take(count), now),
    decreases lines.len() - count,
{
    if count == lines.len() {
        assert(lines.take(count) =~= lines);
    } else {
        assert(lines.take(count + 1).drop_last() =~= lines.take(count));
        lemma_body_at_prefix(registry, lines, now, count + 1);
    }
}

/// Reads the header: the entries up to the line that ends it, and the
/// projects that they set. Gives the factory that holds the projects and the
/// number of the first body line, or `None` where the lines end before the
/// header does.
fn read_header(lines: &Vec<String>, options: &mut Options) -> (r: Result<
    Option<(IntervalFactory, usize)>,
    Error,
>)
    requires
        old(options)@ == Map::<Seq<char>, Seq<char>>::empty(),
    ensures
        match header_of(texts_of(lines@), 0, Map::empty()) {
            HeaderEnd::Failed(kind) => r matches Err(e) && e@ == kind,
            HeaderEnd::Unfinished => r matches Ok(None),
            HeaderEnd::Body { registry, next } => r matches Ok(Some(found)) && found.0@ == Some(
                registry,
            ) && found.1 == next && next <= lines@.len(),
        },
{
    let ghost all = texts_of(lines@);
    let mut i: usize = 0;
    while i < lines.len()
        invariant
            i <= lines@.len(),
            all == texts_of(lines@),
            header_of(all, 0, Map::empty()) == header_of(all, i as int, options@),
        decreases lines@.len() - i,
    {
        proof {
            assert(all[i as int] == lines@[i as int]@);
            reveal_strlit("[");
            reveal_strlit("]");
        }
        let line = trim(lines[i].as_str());
        if same_text(line, "[") {
            return match options.get("timesheet.projects") {
                Some(projects) => {
                    let mut factory = IntervalFactory::new();
                    match factory.parse_projects(projects) {
                        Ok(()) => Ok(Some((factory, i + 1))),
                        Err(e) => Err(e),
                    }
                },
                None => Err(Error::new(ErrorKind::NoProjectsDefinedInConfig)),
            };
        } else if line.unicode_len() != 0 && !same_text(line, "]") {
            match parse_header_line(line) {
                Ok(entry) => {
                    proof {
                        lemma_trimmed_twice(all[i as int]);
                    }
                    options.insert(entry.0, entry.1);
                },
                Err(e) => {
                    proof {
                        lemma_trimmed_twice(all[i as int]);
                    }
                    return Err(e);
                },
            }
        }
        i += 1;
    }
    Ok(None)
}

/// Trimming a trimmed text changes nothing.
proof fn lemma_trimmed_twice(text: Seq<char>)
    ensures
        trimmed(trimmed(text)) == trimmed(text),
{
    crate::text::lemma_stripped_twice(text, Trim::Whitespace);
}

/// Reads the body: one interval for each record from line `from` on.
fn read_body(factory: &IntervalFactory, lines: &Vec<String>, from: usize, clock: &Clock) -> (r:
    Result<Vec<Interval>, Error>)
    requires
        from <= lines@.len(),
        factory@ is Some,
    ensures
        match body_failure(factory@->0, texts_of(lines@).skip(from as int)) {
            Some(kind) => r matches Err(e) && e@ == kind,
            None => r matches Ok(intervals) && body_yields(
                factory@->0,
                texts_of(lines@).skip(from as int),
                models(intervals@),
            ),
        },
        clock matches Clock::Fixed(at) ==> match body_at(
            factory@->0,
            texts_of(lines@).skip(from as int),
            at@,
        ) {
            Ok(expected) => r matches Ok(intervals) && models(intervals@) == expected,
            Err(kind) => r matches Err(e) && e@ == kind,
        },
{
    let ghost registry = factory@->0;
    let ghost body = texts_of(lines@).skip(from as int);
    let mut intervals: Vec<Interval> = Vec::new();
    let mut i: usize = from;
    proof {
        assert(body.take(0) =~= Seq::empty());
        assert(models(intervals@) =~= Seq::empty());
    }
    while i < lines.len()
        invariant
            from <= i <= lines@.len(),
            factory@ == Some(registry),
            body == texts_of(lines@).skip(from as int),
            body_yields(registry, body.take(i - from), models(intervals@)),
            body_failure(registry, body.take(i - from)) is None,
            clock matches Clock::Fixed(at) ==> body_at(registry, body.take(i - from), at@) == Ok::<
                Seq<IntervalModel>,
                ErrorKind,
            >(models(intervals@)),
        decreases lines@.len() - i,
    {
        let ghost done = body.take(i - from);
        let ghost next = body.take(i - from + 1);
        let ghost before = models(intervals@);
        proof {
            assert(next.drop_last() =~= done);
            assert(next.last() == lines@[i as int]@);
            reveal_strlit("]");
        }
        let line = trim(lines[i].as_str());
        if line.unicode_len() != 0 && !same_text(line, "]") {
            let raw = strip(line, Trim::Exactly(','));
            match factory.new_interval_at(raw, clock) {
                Ok(interval) => {
                    intervals.push(interval);
                    proof {
                        assert(models(intervals@) =~= before.push(interval@));
                        assert(models(intervals@).drop_last() =~= before);
                    }
                },
                Err(e) => {
                    proof {
                        lemma_body_failure_prefix(registry, body, i - from + 1);
                        if let Clock::Fixed(at) = *clock {
                            lemma_body_at_prefix(registry, body, at@, i - from + 1);
                        }
                    }
                    return Err(e);
                },
            }
        }
        i += 1;
    }
    proof {
        assert(body.take(i - from) =~= body);
    }
    Ok(intervals)
}

/// The record of the first body line that is not passed over.
pub open spec fn first_record(lines: Seq<Seq<char>>) -> Option<Seq<char>>
    decreases lines.len(),
{
    if lines.len() == 0 {
        None
    } else {
        let line = trimmed(lines[0]);
        if passed_over(line) {
            first_record(lines.drop_first())
        } else {
            Some(record_text(line))
        }
    }
}

/// Whether the extract `lines` holds no record: its lines end before the
/// header does, or every line of its body is passed over.
pub open spec fn holds_no_record(lines: Seq<Seq<char>>) -> bool {
    match header_of(lines, 0, Map::empty()) {
        HeaderEnd::Failed(_) => false,
        HeaderEnd::Unfinished => true,
        HeaderEnd::Body { registry, next } => forall|i: int|
            next <= i < lines.len() ==> passed_over(trimmed(#[trigger] lines[i])),
    }
}

/// Why the first record of the extract `lines` yields no interval, if it
/// yields none.
pub open spec fn first_record_failure(lines: Seq<Seq<char>>) -> Option<ErrorKind> {
    match header_of(lines, 0, Map::empty()) {
        HeaderEnd::Body { registry, next } => match first_record(lines.skip(next)) {
            Some(raw) => record_failure(Some(registry), raw),
            None => None,
        },
        _ => None,
    }
}

/// The first record of some lines is that of all but the last of them, or
/// else that of the last; there is none where every line is passed over.
proof fn lemma_first_record(lines: Seq<Seq<char>>)
    ensures
        first_record(lines) is None <==> forall|i: int|
            0 <= i < lines.len() ==> passed_over(trimmed(#[trigger] lines[i])),
        lines.len() > 0 ==> first_record(lines) == match first_record(lines.drop_last()) {
            Some(raw) => Some(raw),
            None => if passed_over(trimmed(lines.last())) {
                None
            } else {
                Some(record_text(trimmed(lines.last())))
            },
        },
    decreases lines.len(),
{
    if lines.len() > 0 {
        let rest = lines.drop_first();
        lemma_first_record(rest);
        if passed_over(trimmed(lines[0])) {
            assert forall|i: int| 0 <= i < rest.len() implies rest[i] == lines[i + 1] by {}
            if first_record(lines) is None {
                assert forall|i: int| 0 <= i < lines.len() implies passed_over(
                    trimmed(#[trigger] lines[i]),
                ) by {
                    if i > 0 {
                        assert(rest[i - 1] == lines[i]);
                    }
                }
            }
            if forall|i: int| 0 <= i < lines.len() ==> passed_over(trimmed(#[trigger] lines[i])) {
                assert forall|i: int| 0 <= i < rest.len() implies passed_over(
                    trimmed(#[trigger] rest[i]),
                ) by {
                    assert(rest[i] == lines[i + 1]);
                }
            }
            if rest.len() > 0 {
                assert(rest.drop_last() =~= lines.drop_last().drop_first());
                assert(rest.last() == lines.last());
                assert(lines.drop_last()[0] == lines[0]);
            } else {
                assert(lines.drop_last() =~= Seq::<Seq<char>>::empty());
            }
        } else {
            assert(!passed_over(trimmed(lines[0])));
            if lines.len() > 1 {
                assert(lines.drop_last()[0] == lines[0]);
            } else {
                assert(lines.drop_last() =~= Seq::<Seq<char>>::empty());
            }
        }
    }
}

/// Where the first record of a body yields no interval, that is the failure
/// of the body.
proof fn lemma_first_record_failure(registry: Seq<Seq<char>>, lines: Seq<Seq<char>>)
    requires
        first_record(lines) matches Some(raw) && record_failure(Some(registry), raw) is Some,
    ensures
        body_failure(registry, lines) == record_failure(Some(registry), first_record(lines)->0),
    decreases lines.len(),
{
    lemma_first_record(lines);
    if lines.len() > 0 {
        let rest = lines.drop_last();
        if first_record(rest) is Some {
            lemma_first_record_failure(registry, rest);
        } else {
            lemma_first_record(rest);
            lemma_body_of_nothing(registry, rest, InstantModel { seconds: 0, nanos: 0, offset: 0 });
        }
    }
}

/// An extract that holds no record gives the report on no intervals, and an
/// extract whose first record yields no interval fails as that record does.
pub proof fn lemma_run_cases(lines: Seq<Seq<char>>)
    ensures
        holds_no_record(lines) ==> run_failure(lines) is None && forall|text: Seq<char>| #[trigger]
            run_yields(lines, text) ==> text == empty_report_text(),
        first_record_failure(lines) is Some ==> run_failure(lines) == first_record_failure(lines),
{
    if let HeaderEnd::Body { registry, next } = header_of(lines, 0, Map::empty()) {
        if holds_no_record(lines) {
            lemma_empty_body(lines, InstantModel { seconds: 0, nanos: 0, offset: 0 });
        }
        if first_record_failure(lines) is Some {
            lemma_first_record_failure(registry, lines.skip(next));
        }
    }
}

/// Runs on the lines of an extract by `clock`: reads the header, builds an
/// interval from each record of the body, and renders the report on them.
///
/// Whether the run gives a report does not depend on the clock: it fails
/// exactly as [`run_failure`] says, with the failure of the header or of
/// the first record that yields no interval, and the text that it gives
/// else meets [`run_yields`]. An extract that holds no record gives the
/// report on no intervals. By a clock that stands still the outcome is
/// exactly [`run_outcome_at`].
pub fn run_at(_config: Config, lines: &Vec<String>, clock: &Clock) -> (r: Result<String, Error>)
    ensures
        match run_failure(texts_of(lines@)) {
            Some(kind) => r matches Err(e) && e@ == kind,
            None => r matches Ok(text) && run_yields(texts_of(lines@), text@),
        },
        header_of(texts_of(lines@), 0, Map::empty()) matches HeaderEnd::Failed(kind) ==> r matches Err(
            e,
        ) && e@ == kind,
        holds_no_record(texts_of(lines@)) ==> (r matches Ok(text) && text@ == empty_report_text()),
        first_record_failure(texts_of(lines@)) matches Some(kind) ==> r matches Err(e) && e@
            == kind,
        clock matches Clock::Fixed(at) ==> match run_outcome_at(texts_of(lines@), at@) {
            Ok(expected) => r matches Ok(text) && text@ == expected,
            Err(kind) => r matches Err(e) && e@ == kind,
        },
{
    proof {
        lemma_run_cases(texts_of(lines@));
    }
    let mut options = Options::new();
    let intervals = match read_header(lines, &mut options) {
        Ok(Some((factory, next))) => match read_body(&factory, lines, next, clock) {
            Ok(intervals) => intervals,
            Err(e) => {
                return Err(e);
            },
        },
        Ok(None) => Vec::new(),
        Err(e) => {
            return Err(e);
        },
    };
    proof {
        if intervals@.len() == 0 {
            assert(models(intervals@) =~= Seq::empty());
        }
    }
    let report = Report::from_intervals(&options, &intervals);
    let text = report.render();
    proof {
        assert(run_yields(texts_of(lines@), text@));
    }
    Ok(text)
}

/// Runs on the lines of an extract by the clock of the machine.
///
/// The run fails exactly as [`run_failure`] says: with the failure of the
/// header, or with that of the first record that yields no interval. The
/// text that it gives else is the report on one interval for each record,
/// in which the weekday of each, and the length of one that is still
/// open, are what the machine says. An extract that holds no record gives
/// the report on no intervals.
pub fn run(config: Config, lines: &Vec<String>) -> (r: Result<String, Error>)
    ensures
        match run_failure(texts_of(lines@)) {
            Some(kind) => r matches Err(e) && e@ == kind,
            None => r matches Ok(text) && run_yields(texts_of(lines@), text@),
        },
        header_of(texts_of(lines@), 0, Map::empty()) matches HeaderEnd::Failed(kind) ==> r matches Err(
            e,
        ) && e@ == kind,
        holds_no_record(texts_of(lines@)) ==> (r matches Ok(text) && text@ == empty_report_text()),
        first_record_failure(texts_of(lines@)) matches Some(kind) ==> r matches Err(e) && e@
            == kind,
{
    run_at(config, lines, &Clock::System)
}

/// The records on the body lines `lines`, in their order: the JSON text of
/// each line that is not passed over.
pub open spec fn records_of(lines: Seq<Seq<char>>) -> Seq<Seq<char>>
    decreases lines.len(),
{
    if lines.len() == 0 {
        Seq::empty()
    } else {
        let line = trimmed(lines.last());
        if passed_over(line) {
            records_of(lines.drop_last())
        } else {
            records_of(lines.drop_last()).push(record_text(line))
        }
    }
}

/// The intervals of the records `records` by a clock that stands still at
/// `now`, or the failure of the first record that yields none.
pub open spec fn records_at(
    registry: Seq<Seq<char>>,
    records: Seq<Seq<char>>,
    now: InstantModel,
) -> Result<Seq<IntervalModel>, ErrorKind>
    decreases records.len(),
{
    if records.len() == 0 {
        Ok(Seq::empty())
    } else {
        match records_at(registry, records.drop_last(), now) {
            Err(kind) => Err(kind),
            Ok(intervals) => match interval_at(Some(registry), records.last(), now) {
                Ok(interval) => Ok(intervals.push(interval)),
                Err(kind) => Err(kind),
            },
        }
    }
}

/// Why the first of the records `records` that yields no interval whatever
/// the clock says does not, if there is such a record.
pub open spec fn records_failure(registry: Seq<Seq<char>>, records: Seq<Seq<char>>) -> Option<
    ErrorKind,
>
    decreases records.len(),
{
    if records.len() == 0 {
        None
    } else {
        match records_failure(registry, records.drop_last()) {
            Some(kind) => Some(kind),
            None => record_failure(Some(registry), records.last()),
        }
    }
}

/// What a body yields, and whether it fails, is decided by its records
/// alone: blank lines, and the whitespace and commas around a record, do
/// not matter.
pub proof fn lemma_body_by_records(
    registry: Seq<Seq<char>>,
    lines: Seq<Seq<char>>,
    now: InstantModel,
)
    ensures
        body_at(registry, lines, now) == records_at(registry, records_of(lines), now),
        body_failure(registry, lines) == records_failure(registry, records_of(lines)),
    decreases lines.len(),
{
    if lines.len() > 0 {
        lemma_body_by_records(registry, lines.drop_last(), now);
        let line = trimmed(lines.last());
        if !passed_over(line) {
            let records = records_of(lines);
            assert(records.drop_last() =~= records_of(lines.drop_last()));
            assert(records.last() == record_text(line));
        }
    }
}

/// Records yield intervals where each of them does, and only there; and
/// they fail whatever the clock says where one of them does.
proof fn lemma_records_each(registry: Seq<Seq<char>>, records: Seq<Seq<char>>, now: InstantModel)
    ensures
        records_at(registry, records, now) is Ok <==> forall|i: int|
            0 <= i < records.len() ==> interval_at(Some(registry), #[trigger] records[i], now)
                is Ok,
        records_failure(registry, records) is None <==> forall|i: int|
            0 <= i < records.len() ==> record_failure(Some(registry), #[trigger] records[i])
                is None,
    decreases records.len(),
{
    if records.len() > 0 {
        let rest = records.drop_last();
        lemma_records_each(registry, rest, now);
        assert forall|i: int| 0 <= i < rest.len() implies rest[i] == records[i] by {}
        if records_at(registry, records, now) is Ok {
            assert forall|i: int| 0 <= i < records.len() implies interval_at(
                Some(registry),
                #[trigger] records[i],
                now,
            ) is Ok by {
                if i < rest.len() {
                    assert(rest[i] == records[i]);
                }
            }
        }
        if forall|i: int|
            0 <= i < records.len() ==> interval_at(Some(registry), #[trigger] records[i], now)
                is Ok {
            assert forall|i: int| 0 <= i < rest.len() implies interval_at(
                Some(registry),
                #[trigger] rest[i],
                now,
            ) is Ok by {
                assert(rest[i] == records[i]);
            }
            assert(interval_at(Some(registry), records[records.len() - 1], now) is Ok);
        }
        if records_failure(registry, records) is None {
            assert forall|i: int| 0 <= i < records.len() implies record_failure(
                Some(registry),
                #[trigger] records[i],
            ) is None by {
                if i < rest.len() {
                    assert(rest[i] == records[i]);
                }
            }
        }
        if forall|i: int|
            0 <= i < records.len() ==> record_failure(Some(registry), #[trigger] records[i])
                is None {
            assert forall|i: int| 0 <= i < rest.len() implies record_failure(
                Some(registry),
                #[trigger] rest[i],
            ) is None by {
                assert(rest[i] == records[i]);
            }
            assert(record_failure(Some(registry), records[records.len() - 1]) is None);
        }
    }
}

/// The intervals of some records with one taken out are those of all of
/// them, less the interval of that one.
proof fn lemma_records_at_without(
    registry: Seq<Seq<char>>,
    records: Seq<Seq<char>>,
    now: InstantModel,
    at: int,
)
    requires
        0 <= at < records.len(),
        records_at(registry, records, now) is Ok,
    ensures
        records_at(registry, records.remove(at), now) is Ok,
        interval_at(Some(registry), records[at], now) is Ok,
        records_at(registry, records, now)->Ok_0.to_multiset() == records_at(
            registry,
            records.remove(at),
            now,
        )->Ok_0.to_multiset().insert(interval_at(Some(registry), records[at], now)->Ok_0),
    decreases records.len(),
{
    broadcast use vstd::seq_lib::group_to_multiset_ensures;

    let rest = records.drop_last();
    if at == records.len() - 1 {
        assert(records.remove(at) =~= rest);
    } else {
        lemma_records_at_without(registry, rest, now, at);
        let without = records.remove(at);
        assert(without.drop_last() =~= rest.remove(at));
        assert(without.last() == records.last());
        assert(rest[at] == records[at]);
        let whole = records_at(registry, rest, now)->Ok_0;
        let part = records_at(registry, rest.remove(at), now)->Ok_0;
        let taken = interval_at(Some(registry), records[at], now)->Ok_0;
        let last = interval_at(Some(registry), records.last(), now)->Ok_0;
        assert(whole.push(last).to_multiset() =~= part.push(last).to_multiset().insert(taken));
    }
}

/// By a clock that stands still, the same records in another order yield
/// the same intervals in another order, where they yield intervals at all.
pub proof fn lemma_records_in_any_order(
    registry: Seq<Seq<char>>,
    a: Seq<Seq<char>>,
    b: Seq<Seq<char>>,
    now: InstantModel,
)
    requires
        a.to_multiset() == b.to_multiset(),
        records_at(registry, a, now) is Ok,
    ensures
        records_at(registry, b, now) is Ok,
        records_at(registry, a, now)->Ok_0.to_multiset() == records_at(
            registry,
            b,
            now,
        )->Ok_0.to_multiset(),
    decreases a.len(),
{
    broadcast use vstd::seq_lib::group_to_multiset_ensures;

    a.to_multiset_ensures();
    b.to_multiset_ensures();
    lemma_records_each(registry, a, now);
    lemma_records_each(registry, b, now);
    assert forall|i: int| 0 <= i < b.len() implies interval_at(
        Some(registry),
        #[trigger] b[i],
        now,
    ) is Ok by {
        assert(b.contains(b[i]));
        assert(a.to_multiset().count(b[i]) > 0);
        assert(a.contains(b[i]));
        let k = choose|k: int| 0 <= k < a.len() && a[k] == b[i];
        assert(interval_at(Some(registry), a[k], now) is Ok);
    }
    if a.len() == 0 {
        assert(b.len() == 0);
        assert(a =~= b);
    } else {
        let x = a.last();
        let rest = a.drop_last();
        assert(a.contains(x)) by {
            assert(a[a.len() - 1] == x);
        }
        assert(b.to_multiset().count(x) > 0);
        assert(b.contains(x));
        let at = choose|at: int| 0 <= at < b.len() && b[at] == x;
        assert(rest =~= a.remove(a.len() - 1));
        assert(rest.to_multiset() =~= a.to_multiset().remove(x));
        assert(b.remove(at).to_multiset() =~= b.to_multiset().remove(x));
        lemma_records_at_without(registry, a, now, a.len() - 1);
        lemma_records_at_without(registry, b, now, at);
        lemma_records_in_any_order(registry, rest, b.remove(at), now);
    }
}

/// Whether records fail whatever the clock says does not depend on their
/// order.
pub proof fn lemma_records_failure_in_any_order(
    registry: Seq<Seq<char>>,
    a: Seq<Seq<char>>,
    b: Seq<Seq<char>>,
)
    requires
        a.to_multiset() == b.to_multiset(),
    ensures
        records_failure(registry, a) is None <==> records_failure(registry, b) is None,
{
    broadcast use vstd::seq_lib::group_to_multiset_ensures;

    a.to_multiset_ensures();
    b.to_multiset_ensures();
    let now = InstantModel { seconds: 0, nanos: 0, offset: 0 };
    lemma_records_each(registry, a, now);
    lemma_records_each(registry, b, now);
    if records_failure(registry, a) is None {
        assert forall|i: int| 0 <= i < b.len() implies record_failure(
            Some(registry),
            #[trigger] b[i],
        ) is None by {
            assert(b.contains(b[i]));
            assert(a.to_multiset().count(b[i]) > 0);
            assert(a.contains(b[i]));
            let k = choose|k: int| 0 <= k < a.len() && a[k] == b[i];
            assert(record_failure(Some(registry), a[k]) is None);
        }
    }
    if records_failure(registry, b) is None {
        assert forall|i: int| 0 <= i < a.len() implies record_failure(
            Some(registry),
            #[trigger] a[i],
        ) is None by {
            assert(a.contains(a[i]));
            assert(b.to_multiset().count(a[i]) > 0);
            assert(b.contains(a[i]));
            let k = choose|k: int| 0 <= k < b.len() && b[k] == a[i];
            assert(record_failure(Some(registry), b[k]) is None);
        }
    }
}

/// How a header ends does not depend on the lines that come after it.
proof fn lemma_header_reads_no_further(
    head: Seq<Seq<char>>,
    more: Seq<Seq<char>>,
    from: int,
    options: Map<Seq<char>, Seq<char>>,
)
    requires
        0 <= from,
        header_of(head, from, options) is Body,
    ensures
        header_of(head + more, from, options) == header_of(head, from, options),
    decreases head.len() - from,
{
    if from < head.len() {
        let lines = head + more;
        assert(lines[from] == head[from]);
        let line = trimmed(head[from]);
        if line == open_mark() {
        } else if passed_over(line) {
            lemma_header_reads_no_further(head, more, from + 1, options);
        } else {
            match header_entry(line) {
                Some((key, value)) => {
                    lemma_header_reads_no_further(head, more, from + 1, options.insert(key, value));
                },
                None => {},
            }
        }
    }
}

/// By a clock that stands still, a run that gives a report gives the same
/// report when the records of the body come in another order.
///
/// `head` holds the lines up to the one that ends the header; `a` and `b`
/// are bodies that hold the same records, whatever their blank lines and
/// the whitespace and commas around each record. A run that fails is left
/// out: which record fails first depends on the order.
pub proof fn lemma_run_in_any_order(
    head: Seq<Seq<char>>,
    a: Seq<Seq<char>>,
    b: Seq<Seq<char>>,
    now: InstantModel,
)
    requires
        header_of(head, 0, Map::empty()) matches HeaderEnd::Body { registry, next } && next
            == head.len(),
        records_of(a).to_multiset() == records_of(b).to_multiset(),
        run_outcome_at(head + a, now) is Ok,
    ensures
        run_outcome_at(head + b, now) == run_outcome_at(head + a, now),
{
    if let HeaderEnd::Body { registry, next } = header_of(head, 0, Map::empty()) {
        lemma_header_reads_no_further(head, a, 0, Map::empty());
        lemma_header_reads_no_further(head, b, 0, Map::empty());
        assert((head + a).skip(next) =~= a);
        assert((head + b).skip(next) =~= b);
        lemma_body_by_records(registry, a, now);
        lemma_body_by_records(registry, b, now);
        lemma_records_in_any_order(registry, records_of(a), records_of(b), now);
        crate::theorems::lemma_report_in_any_order(
            body_at(registry, a, now)->Ok_0,
            body_at(registry, b, now)->Ok_0,
        );
    }
}

/// Whether a run gives a report, by whatever clock, does not depend on the
/// order in which the records of the body come.
///
/// `head`, `a` and `b` are as in [`lemma_run_in_any_order`].
pub proof fn lemma_run_succeeds_in_any_order(
    head: Seq<Seq<char>>,
    a: Seq<Seq<char>>,
    b: Seq<Seq<char>>,
)
    requires
        header_of(head, 0, Map::empty()) matches HeaderEnd::Body { registry, next } && next
            == head.len(),
        records_of(a).to_multiset() == records_of(b).to_multiset(),
    ensures
        run_failure(head + a) is None <==> run_failure(head + b) is None,
{
    if let HeaderEnd::Body { registry, next } = header_of(head, 0, Map::empty()) {
        let now = InstantModel { seconds: 0, nanos: 0, offset: 0 };
        lemma_header_reads_no_further(head, a, 0, Map::empty());
        lemma_header_reads_no_further(head, b, 0, Map::empty());
        assert((head + a).skip(next) =~= a);
        assert((head + b).skip(next) =~= b);
        lemma_body_by_records(registry, a, now);
        lemma_body_by_records(registry, b, now);
        lemma_records_failure_in_any_order(registry, records_of(a), records_of(b));
    }
}

} // verus!
