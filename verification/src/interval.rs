//! Intervals: one validated span of work on one project.

use vstd::prelude::*;
use vstd::string::*;
use crate::clock::{
    decode_instant, decoded_at, elapsed_seconds, timestamp_seconds, Clock, InstantModel,
    LocalInstant, OFFSET_SPAN,
};
use crate::error::{Error, ErrorKind};
use crate::json::{
    decode_array_texts, decode_integer, decode_object_fields, decode_string, decode_string_list,
    json_array_texts, json_integer, json_object_fields, json_string, json_string_list,
};
use crate::text::{pairs_of, same_text, strip, stripped, texts_of, Trim};

verus! {

/// One record of the extract as it is written on the wire.
#[derive(Debug)]
pub struct Inclusion {
    /// Identifier of the record.
    pub id: i32,
    /// When the work began, as a compact UTC timestamp.
    pub start: String,
    /// When the work ended; empty while the work is still going on.
    pub end: String,
    /// The tags of the record, in the order given.
    pub tags: Vec<String>,
    /// Free text attached to the record.
    pub annotation: String,
}

/// What an [`Inclusion`] stands for.
pub struct InclusionModel {
    /// Identifier of the record.
    pub id: int,
    /// When the work began.
    pub start: Seq<char>,
    /// When the work ended; empty while the work is still going on.
    pub end: Seq<char>,
    /// The tags of the record, in the order given.
    pub tags: Seq<Seq<char>>,
    /// Free text attached to the record.
    pub annotation: Seq<char>,
}

impl View for Inclusion {
    type V = InclusionModel;

    open spec fn view(&self) -> InclusionModel {
        InclusionModel {
            id: self.id as int,
            start: self.start@,
            end: self.end@,
            tags: texts_of(self.tags@),
            annotation: self.annotation@,
        }
    }
}

/// The text of the first member of `fields` whose key is `key`.
pub open spec fn field_text(fields: Seq<(Seq<char>, Seq<char>)>, key: Seq<char>) -> Option<
    Seq<char>,
>
    decreases fields.len(),
{
    if fields.len() == 0 {
        None
    } else if fields[0].0 == key {
        Some(fields[0].1)
    } else {
        field_text(fields.drop_first(), key)
    }
}

/// The string of the member `key`, or the empty string where the object
/// has no such member; `None` where the member is not a string.
pub open spec fn optional_string(fields: Seq<(Seq<char>, Seq<char>)>, key: Seq<char>) -> Option<
    Seq<char>,
> {
    match field_text(fields, key) {
        Some(text) => json_string(text),
        None => Some(Seq::empty()),
    }
}

/// The record that the members `fields` of a JSON object make up: `id` and
/// `start` must be there, `end`, `tags` and `annotation` default to empty,
/// and members of other names are ignored. `None` where a member is
/// missing or is not of its type.
pub open spec fn inclusion_of_fields(fields: Seq<(Seq<char>, Seq<char>)>) -> Option<
    InclusionModel,
> {
    let id = match field_text(fields, "id"@) {
        Some(text) => json_integer(text),
        None => None,
    };
    let start = match field_text(fields, "start"@) {
        Some(text) => json_string(text),
        None => None,
    };
    let end = optional_string(fields, "end"@);
    let tags = match field_text(fields, "tags"@) {
        Some(text) => json_string_list(text),
        None => Some(Seq::empty()),
    };
    let annotation = optional_string(fields, "annotation"@);
    if id is Some && start is Some && end is Some && tags is Some && annotation is Some {
        Some(
            InclusionModel {
                id: id->0 as int,
                start: start->0,
                end: end->0,
                tags: tags->0,
                annotation: annotation->0,
            },
        )
    } else {
        None
    }
}

/// The record that the JSON text `raw` holds; `None` where `raw` is not a
/// JSON object of that shape.
pub open spec fn inclusion_of(raw: Seq<char>) -> Option<InclusionModel> {
    match json_object_fields(raw) {
        Some(fields) => inclusion_of_fields(fields),
        None => None,
    }
}

/// Finds the text of the first member of `fields` whose key is `key`.
fn find_field<'a>(fields: &'a Vec<(String, String)>, key: &str) -> (r: Option<&'a str>)
    ensures
        match r {
            Some(text) => field_text(pairs_of(fields@), key@) == Some(text@),
            None => field_text(pairs_of(fields@), key@) is None,
        },
{
    let ghost all = pairs_of(fields@);
    let mut i: usize = 0;
    proof {
        assert(all.skip(0) =~= all);
    }
    while i < fields.len()
        invariant
            i <= fields@.len(),
            all == pairs_of(fields@),
            field_text(all, key@) == field_text(all.skip(i as int), key@),
        decreases fields@.len() - i,
    {
        proof {
            assert(all.skip(i as int)[0] == all[i as int]);
            assert(all.skip(i as int).drop_first() =~= all.skip(i + 1));
        }
        if same_text(fields[i].0.as_str(), key) {
            return Some(fields[i].1.as_str());
        }
        i += 1;
    }
    None
}

/// Decodes the string member `key`, which defaults to the empty string.
fn decode_optional_string(fields: &Vec<(String, String)>, key: &str) -> (r: Result<String, String>)
    ensures
        optional_string(pairs_of(fields@), key@) == match r {
            Ok(value) => Some(value@),
            Err(_) => None,
        },
{
    match find_field(fields, key) {
        Some(text) => decode_string(text),
        None => Ok(String::new()),
    }
}

/// The failure of a record that lacks a member.
fn incomplete() -> (r: Error)
    ensures
        r@ == ErrorKind::FailedToParseInclusions,
{
    Error::new(ErrorKind::FailedToParseInclusions)
}

/// The failure of a record with a member that the decoder refused.
fn malformed(report: String) -> (r: Error)
    ensures
        r@ == ErrorKind::FailedToParseInclusions,
{
    Error::from_json(ErrorKind::FailedToParseInclusions, report)
}

impl Inclusion {
    /// Makes a record of the members of a JSON object, given as pairs of
    /// the key and the JSON text of the value.
    pub fn from_fields(fields: &Vec<(String, String)>) -> (r: Result<Inclusion, Error>)
        ensures
            inclusion_of_fields(pairs_of(fields@)) == match r {
                Ok(inclusion) => Some(inclusion@),
                Err(_) => None,
            },
            r matches Err(e) ==> e@ == ErrorKind::FailedToParseInclusions,
    {
        let id: i32 = match find_field(fields, "id") {
            Some(text) => match decode_integer(text) {
                Ok(id) => id,
                Err(report) => {
                    return Err(malformed(report));
                },
            },
            None => {
                return Err(incomplete());
            },
        };
        let start = match find_field(fields, "start") {
            Some(text) => match decode_string(text) {
                Ok(start) => start,
                Err(report) => {
                    return Err(malformed(report));
                },
            },
            None => {
                return Err(incomplete());
            },
        };
        let end = match decode_optional_string(fields, "end") {
            Ok(end) => end,
            Err(report) => {
                return Err(malformed(report));
            },
        };
        let tags: Vec<String> = match find_field(fields, "tags") {
            Some(text) => match decode_string_list(text) {
                Ok(tags) => tags,
                Err(report) => {
                    return Err(malformed(report));
                },
            },
            None => Vec::new(),
        };
        let annotation = match decode_optional_string(fields, "annotation") {
            Ok(annotation) => annotation,
            Err(report) => {
                return Err(malformed(report));
            },
        };
        proof {
            if tags@.len() == 0 {
                assert(texts_of(tags@) =~= Seq::<Seq<char>>::empty());
            }
        }
        Ok(Inclusion { id, start, end, tags, annotation })
    }

    /// Decodes one record from its JSON text.
    pub fn decode(raw: &str) -> (r: Result<Inclusion, Error>)
        ensures
            inclusion_of(raw@) == match r {
                Ok(inclusion) => Some(inclusion@),
                Err(_) => None,
            },
            r matches Err(e) ==> e@ == ErrorKind::FailedToParseInclusions,
    {
        match decode_object_fields(raw) {
            Ok(fields) => Inclusion::from_fields(&fields),
            Err(report) => Err(malformed(report)),
        }
    }
}

/// What an [`Interval`] stands for.
pub struct IntervalModel {
    /// Label of the project that the work belongs to.
    pub project: Seq<char>,
    /// Length of the work in whole seconds; negative if it ends before it begins.
    pub seconds: int,
    /// Day of the week on which the work began: 0 is Monday, 6 is Sunday.
    pub weekday: int,
}

/// One span of work on one project.
#[derive(Debug)]
pub struct Interval {
    project: String,
    total_seconds: i64,
    weekday: u32,
    inclusion: Option<Inclusion>,
}

impl View for Interval {
    type V = IntervalModel;

    closed spec fn view(&self) -> IntervalModel {
        IntervalModel {
            project: self.project@,
            seconds: self.total_seconds as int,
            weekday: self.weekday as int,
        }
    }
}

impl Interval {
    #[verifier::type_invariant]
    spec fn day_in_week(self) -> bool {
        self.weekday < 7
    }

    /// An interval of no length on Monday, with no project.
    pub fn new() -> (r: Interval)
        ensures
            r@.project == Seq::<char>::empty(),
            r@.seconds == 0,
            r@.weekday == 0,
    {
        Interval { project: String::new(), total_seconds: 0, weekday: 0, inclusion: None }
    }

    /// Length of the work in whole seconds.
    pub fn total_seconds(&self) -> (r: i64)
        ensures
            r == self@.seconds,
    {
        self.total_seconds
    }

    /// Label of the project.
    pub fn project(&self) -> (r: &str)
        ensures
            r@ == self@.project,
    {
        self.project.as_str()
    }

    /// Day of the week on which the work began, counted from Monday as 0.
    pub fn weekday(&self) -> (r: u32)
        ensures
            r == self@.weekday,
            r < 7,
    {
        proof {
            use_type_invariant(self);
        }
        self.weekday
    }

    /// The interval of work on `project` from `start` to `end`: its length
    /// is the whole seconds between the two, its weekday that of `start` in
    /// local time.
    pub fn spanning(
        project: String,
        start: &LocalInstant,
        end: &LocalInstant,
        inclusion: Option<Inclusion>,
    ) -> (r: Interval)
        ensures
            r@ == spanning_model(project@, start@, end@),
    {
        Interval {
            project,
            total_seconds: start.seconds_until(end),
            weekday: start.weekday(),
            inclusion,
        }
    }
}

/// What the interval of work on `project` from `start` to `end` stands for.
pub open spec fn spanning_model(
    project: Seq<char>,
    start: InstantModel,
    end: InstantModel,
) -> IntervalModel {
    IntervalModel {
        project,
        seconds: elapsed_seconds(start, end),
        weekday: start.weekday(),
    }
}

/// The project slot after the tags `tags` have been scanned in order,
/// starting from `slot`: a tag that is a project fills the empty slot, and
/// `None` where a tag that is a project finds the slot filled.
pub open spec fn scan_tags(registry: Seq<Seq<char>>, tags: Seq<Seq<char>>, slot: Seq<char>) -> Option<
    Seq<char>,
>
    decreases tags.len(),
{
    if tags.len() == 0 {
        Some(slot)
    } else if registry.contains(tags[0]) {
        if slot.len() == 0 {
            scan_tags(registry, tags.drop_first(), tags[0])
        } else {
            None
        }
    } else {
        scan_tags(registry, tags.drop_first(), slot)
    }
}

/// The one project among `tags`, or why there is none.
pub open spec fn resolution(registry: Option<Seq<Seq<char>>>, tags: Seq<Seq<char>>) -> Result<
    Seq<char>,
    ErrorKind,
> {
    if registry is None || registry->0.len() == 0 {
        Err(ErrorKind::NoProjectsDefinedInConfig)
    } else {
        match scan_tags(registry->0, tags, Seq::empty()) {
            None => Err(ErrorKind::IntervalWithMoreThanOneProject),
            Some(slot) => if slot.len() == 0 {
                Err(ErrorKind::IntervalWithNoProjects)
            } else {
                Ok(slot)
            },
        }
    }
}

/// A slot that the scan leaves filled holds a tag that is a project, or
/// what it held before.
pub proof fn lemma_scan_tags_member(
    registry: Seq<Seq<char>>,
    tags: Seq<Seq<char>>,
    slot: Seq<char>,
)
    ensures
        scan_tags(registry, tags, slot) matches Some(found) ==> found == slot || (registry.contains(
            found,
        ) && tags.contains(found)),
    decreases tags.len(),
{
    if tags.len() > 0 {
        let rest = tags.drop_first();
        let next = if registry.contains(tags[0]) {
            tags[0]
        } else {
            slot
        };
        lemma_scan_tags_member(registry, rest, next);
        if let Some(found) = scan_tags(registry, tags, slot) {
            if found != slot {
                if found == tags[0] {
                    assert(tags.contains(found));
                } else {
                    let k = choose|k: int| 0 <= k < rest.len() && rest[k] == found;
                    assert(tags[k + 1] == found);
                }
            }
        }
    }
}

/// Tags of which none is a project leave the slot as it is.
proof fn lemma_scan_tags_none(registry: Seq<Seq<char>>, tags: Seq<Seq<char>>, slot: Seq<char>)
    requires
        forall|k: int| 0 <= k < tags.len() ==> !registry.contains(#[trigger] tags[k]),
    ensures
        scan_tags(registry, tags, slot) == Some(slot),
    decreases tags.len(),
{
    if tags.len() > 0 {
        let rest = tags.drop_first();
        assert(!registry.contains(tags[0]));
        assert forall|k: int| 0 <= k < rest.len() implies !registry.contains(#[trigger] rest[k]) by {
            assert(rest[k] == tags[k + 1]);
        }
        lemma_scan_tags_none(registry, rest, slot);
    }
}

/// Tags of which exactly one is a project, and that one not empty, fill the
/// empty slot with it.
proof fn lemma_scan_tags_one(registry: Seq<Seq<char>>, tags: Seq<Seq<char>>, at: int)
    requires
        0 <= at < tags.len(),
        registry.contains(tags[at]),
        tags[at].len() > 0,
        forall|k: int| 0 <= k < tags.len() && k != at ==> !registry.contains(#[trigger] tags[k]),
    ensures
        scan_tags(registry, tags, Seq::empty()) == Some(tags[at]),
    decreases tags.len(),
{
    let rest = tags.drop_first();
    if at == 0 {
        assert forall|k: int| 0 <= k < rest.len() implies !registry.contains(#[trigger] rest[k]) by {
            assert(rest[k] == tags[k + 1]);
        }
        lemma_scan_tags_none(registry, rest, tags[0]);
    } else {
        assert(!registry.contains(tags[0]));
        assert(rest[at - 1] == tags[at]);
        assert forall|k: int| 0 <= k < rest.len() && k != at - 1 implies !registry.contains(
            #[trigger] rest[k],
        ) by {
            assert(rest[k] == tags[k + 1]);
        }
        lemma_scan_tags_one(registry, rest, at - 1);
    }
}

/// Where no label of the registry is empty, tags of which exactly one is a
/// label of the registry resolve to that one.
pub proof fn lemma_one_registered_tag(registry: Seq<Seq<char>>, tags: Seq<Seq<char>>, at: int)
    requires
        forall|k: int| 0 <= k < registry.len() ==> (#[trigger] registry[k]).len() > 0,
        0 <= at < tags.len(),
        registry.contains(tags[at]),
        forall|k: int| 0 <= k < tags.len() && k != at ==> !registry.contains(#[trigger] tags[k]),
    ensures
        resolution(Some(registry), tags) == Ok::<Seq<char>, ErrorKind>(tags[at]),
{
    let k = choose|k: int| 0 <= k < registry.len() && registry[k] == tags[at];
    assert(registry[k].len() > 0);
    lemma_scan_tags_one(registry, tags, at);
}

/// The project that an interval resolves to is a non-empty label of the
/// registry and one of the tags.
pub proof fn lemma_resolution_member(registry: Option<Seq<Seq<char>>>, tags: Seq<Seq<char>>)
    ensures
        resolution(registry, tags) matches Ok(project) ==> project.len() > 0 && registry->0.contains(
            project,
        ) && tags.contains(project),
{
    if registry is Some {
        lemma_scan_tags_member(registry->0, tags, Seq::empty());
    }
}

/// What the JSON text `raw` of a record yields by a clock that stands still
/// at `now`.
pub open spec fn interval_at(
    registry: Option<Seq<Seq<char>>>,
    raw: Seq<char>,
    now: InstantModel,
) -> Result<IntervalModel, ErrorKind> {
    if registry is None || registry->0.len() == 0 {
        Err(ErrorKind::NoProjectsDefinedInConfig)
    } else {
        match inclusion_of(raw) {
            None => Err(ErrorKind::FailedToParseInclusions),
            Some(inclusion) => built_at(registry, inclusion, now),
        }
    }
}

/// What the record `inclusion` yields by a clock that stands still at `now`.
pub open spec fn built_at(
    registry: Option<Seq<Seq<char>>>,
    inclusion: InclusionModel,
    now: InstantModel,
) -> Result<IntervalModel, ErrorKind> {
    match resolution(registry, inclusion.tags) {
        Err(kind) => Err(kind),
        Ok(project) => match (decoded_at(inclusion.start, now), decoded_at(inclusion.end, now)) {
            (Some(start), Some(end)) => Ok(spanning_model(project, start, end)),
            _ => Err(ErrorKind::FailedToParseTimestamp),
        },
    }
}

/// Day of the week, counted from Monday as 0, on which the second `seconds`
/// after the epoch falls in a zone that is `offset` seconds ahead of UTC.
pub open spec fn weekday_at(seconds: int, offset: int) -> int {
    (InstantModel { seconds, nanos: 0, offset }).weekday()
}

/// Whether `weekday` is the day of the week on which the second `seconds`
/// after the epoch falls in some zone: one whose offset from UTC is less
/// than a day.
pub open spec fn weekday_somewhere(seconds: int, weekday: int) -> bool {
    exists|offset: int|
        -OFFSET_SPAN < offset < OFFSET_SPAN && #[trigger] weekday_at(seconds, offset) == weekday
}

/// What holds of the interval that the record `inclusion` yields, whatever
/// the clock says: the project is the one that the tags resolve to; where
/// the start is given the weekday is that of its timestamp in some zone;
/// and where start and end are both given the length is the seconds between
/// the two timestamps.
pub open spec fn built_from(
    registry: Option<Seq<Seq<char>>>,
    inclusion: InclusionModel,
    interval: IntervalModel,
) -> bool {
    &&& resolution(registry, inclusion.tags) == Ok::<Seq<char>, ErrorKind>(interval.project)
    &&& 0 <= interval.weekday < 7
    &&& inclusion.start.len() > 0 ==> timestamp_seconds(inclusion.start) is Some
        && weekday_somewhere(timestamp_seconds(inclusion.start)->0, interval.weekday)
    &&& inclusion.end.len() > 0 ==> timestamp_seconds(inclusion.end) is Some
    &&& inclusion.start.len() > 0 && inclusion.end.len() > 0 ==> interval.seconds
        == timestamp_seconds(inclusion.end)->0 - timestamp_seconds(inclusion.start)->0
}

/// Why the record `inclusion` yields no interval whatever the clock says,
/// if that is so.
pub open spec fn build_failure(
    registry: Option<Seq<Seq<char>>>,
    inclusion: InclusionModel,
) -> Option<ErrorKind> {
    match resolution(registry, inclusion.tags) {
        Err(kind) => Some(kind),
        Ok(_) => if (inclusion.start.len() > 0 && timestamp_seconds(inclusion.start) is None) || (
        inclusion.end.len() > 0 && timestamp_seconds(inclusion.end) is None) {
            Some(ErrorKind::FailedToParseTimestamp)
        } else {
            None
        },
    }
}

/// A record whose end is its start yields an interval of no length: by a
/// clock that stands still always, and by any clock where the two are given.
/// Where they are given, the record yields an interval exactly where its
/// tags hold one project and its start is a timestamp.
pub proof fn lemma_equal_ends_have_no_length(
    registry: Option<Seq<Seq<char>>>,
    inclusion: InclusionModel,
    now: InstantModel,
    interval: IntervalModel,
)
    requires
        inclusion.start == inclusion.end,
    ensures
        built_at(registry, inclusion, now) matches Ok(built) ==> built.seconds == 0,
        inclusion.start.len() > 0 && built_from(registry, inclusion, interval) ==> interval.seconds
            == 0,
        inclusion.start.len() > 0 ==> (build_failure(registry, inclusion) is None <==> resolution(
            registry,
            inclusion.tags,
        ) is Ok && timestamp_seconds(inclusion.start) is Some),
{
}

/// By every clock, a record whose tags resolve to a project and whose start
/// and end are the same timestamp yields an interval, and that interval has
/// no length. The tags resolve where exactly one of them is a label of the
/// registry and that label is not empty: see [`lemma_one_registered_tag`].
pub proof fn lemma_record_of_no_length(
    registry: Option<Seq<Seq<char>>>,
    raw: Seq<char>,
    interval: IntervalModel,
)
    requires
        inclusion_of(raw) is Some,
        inclusion_of(raw)->0.start == inclusion_of(raw)->0.end,
        timestamp_seconds(inclusion_of(raw)->0.start) is Some,
        resolution(registry, inclusion_of(raw)->0.tags) is Ok,
    ensures
        record_failure(registry, raw) is None,
        built_from(registry, inclusion_of(raw)->0, interval) ==> interval.seconds == 0,
{
    let inclusion = inclusion_of(raw)->0;
    if inclusion.start.len() == 0 {
        assert(!crate::clock::timestamp_shape(inclusion.start));
    }
}

/// The label that one element of the projects array stands for, given the
/// element as compact JSON: the string itself where the element is a JSON
/// string, else the compact JSON without the double quotes at its ends.
pub open spec fn label_of(text: Seq<char>) -> Seq<char> {
    match json_string(text) {
        Some(value) => value,
        None => stripped(text, Trim::Exactly('"')),
    }
}

/// The labels that the elements of the projects array stand for, each
/// element given as compact JSON.
pub open spec fn labels_of(texts: Seq<Seq<char>>) -> Seq<Seq<char>> {
    texts.map_values(|text: Seq<char>| label_of(text))
}

/// The label of one element of the projects array: `value` where the
/// element is a JSON string and `value` the string that it holds, else
/// `text`, the element as compact JSON, without the double quotes at its
/// ends.
pub fn label_from(text: &str, value: Option<String>) -> (r: String)
    ensures
        r@ == match value {
            Some(value) => value@,
            None => stripped(text@, Trim::Exactly('"')),
        },
{
    match value {
        Some(value) => value,
        None => strip(text, Trim::Exactly('"')).to_owned(),
    }
}

/// Turns the elements of the projects array, each given as compact JSON,
/// into labels.
pub fn labels_from_texts(texts: &Vec<String>) -> (r: Vec<String>)
    ensures
        texts_of(r@) == labels_of(texts_of(texts@)),
{
    let mut labels: Vec<String> = Vec::new();
    let mut i: usize = 0;
    while i < texts.len()
        invariant
            i <= texts@.len(),
            labels@.len() == i,
            forall|k: int| 0 <= k < i ==> (#[trigger] labels@[k])@ == label_of(texts@[k]@),
        decreases texts@.len() - i,
    {
        let text = texts[i].as_str();
        let value = match decode_string(text) {
            Ok(value) => Some(value),
            Err(_) => None,
        };
        labels.push(label_from(text, value));
        i += 1;
    }
    proof {
        assert(texts_of(labels@) =~= labels_of(texts_of(texts@)));
    }
    labels
}

/// Builds intervals from records, given the labels that count as projects.
pub struct IntervalFactory {
    valid_projects: Option<Vec<String>>,
}

impl View for IntervalFactory {
    type V = Option<Seq<Seq<char>>>;

    closed spec fn view(&self) -> Option<Seq<Seq<char>>> {
        match self.valid_projects {
            Some(projects) => Some(texts_of(projects@)),
            None => None,
        }
    }
}

/// Whether `label` is one of `labels`.
fn holds_label(labels: &Vec<String>, label: &str) -> (r: bool)
    ensures
        r == texts_of(labels@).contains(label@),
{
    let mut i: usize = 0;
    while i < labels.len()
        invariant
            i <= labels@.len(),
            forall|k: int| 0 <= k < i ==> texts_of(labels@)[k] != label@,
        decreases labels@.len() - i,
    {
        if same_text(labels[i].as_str(), label) {
            assert(texts_of(labels@)[i as int] == label@);
            return true;
        }
        i += 1;
    }
    false
}

impl IntervalFactory {
    /// A factory that has no projects yet.
    pub fn new() -> (r: IntervalFactory)
        ensures
            r@ is None,
    {
        IntervalFactory { valid_projects: None }
    }

    /// Takes `labels` as the projects, in place of those it had.
    pub fn set_projects(&mut self, labels: Vec<String>)
        ensures
            final(self)@ == Some(texts_of(labels@)),
    {
        self.valid_projects = Some(labels);
    }

    /// Loads the projects from the JSON array `json`, in place of those it
    /// had: an element that is a JSON string gives the string itself as
    /// label, any other element its compact JSON without the double quotes
    /// at its ends. Fails, and keeps the projects it had, where `json` is
    /// not a JSON array.
    pub fn parse_projects(&mut self, json: &str) -> (r: Result<(), Error>)
        ensures
            match json_array_texts(json@) {
                Some(texts) => r is Ok && final(self)@ == Some(labels_of(texts)),
                None => r matches Err(e) && e@ == ErrorKind::FailedToParseConfig && final(self)@
                    == old(self)@,
            },
    {
        match decode_array_texts(json) {
            Ok(texts) => {
                let labels = labels_from_texts(&texts);
                self.set_projects(labels);
                Ok(())
            },
            Err(report) => Err(Error::from_json(ErrorKind::FailedToParseConfig, report)),
        }
    }

    /// Whether `label` is one of the projects.
    pub fn contains(&self, label: &str) -> (r: bool)
        ensures
            r == (self@ matches Some(projects) && projects.contains(label@)),
    {
        match self.valid_projects.as_ref() {
            Some(projects) => holds_label(projects, label),
            None => false,
        }
    }

    /// Decodes a timestamp by the clock of the machine: the current instant
    /// for the empty text, else the instant that `datetime` stands for in
    /// the fixed format, read as UTC. Fails where `datetime` is neither
    /// empty nor a timestamp, and only there.
    pub fn string_to_datetime(datetime: &str) -> (r: Result<LocalInstant, Error>)
        ensures
            r matches Err(e) ==> e@ == ErrorKind::FailedToParseTimestamp,
            r matches Ok(instant) ==> instant@.in_bounds(),
            datetime@.len() == 0 ==> r is Ok,
            datetime@.len() > 0 ==> match timestamp_seconds(datetime@) {
                Some(seconds) => r matches Ok(instant) && instant@.seconds == seconds
                    && instant@.nanos == 0,
                None => r is Err,
            },
    {
        decode_instant(datetime, &Clock::System)
    }

    /// Finds the one project among `tags`.
    ///
    /// The tags are scanned in order. The first that is a project is taken;
    /// a second one is an error, and so is none at all. An empty tag never
    /// counts as a project taken.
    pub fn resolve(&self, tags: &Vec<String>) -> (r: Result<String, Error>)
        ensures
            match resolution(self@, texts_of(tags@)) {
                Ok(project) => r matches Ok(label) && label@ == project,
                Err(kind) => r matches Err(e) && e@ == kind,
            },
    {
        let projects = match self.valid_projects.as_ref() {
            Some(projects) => projects,
            None => {
                return Err(Error::new(ErrorKind::NoProjectsDefinedInConfig));
            },
        };
        if projects.len() == 0 {
            return Err(Error::new(ErrorKind::NoProjectsDefinedInConfig));
        }
        let ghost registry = texts_of(projects@);
        let ghost all = texts_of(tags@);
        let mut slot: Option<usize> = None;
        let mut i: usize = 0;
        proof {
            assert(all.skip(0) =~= all);
        }
        while i < tags.len()
            invariant
                i <= tags@.len(),
                registry == texts_of(projects@),
                self@ == Some(registry),
                registry.len() > 0,
                all == texts_of(tags@),
                match slot {
                    Some(at) => at < i && all[at as int].len() > 0 && scan_tags(
                        registry,
                        all,
                        Seq::empty(),
                    ) == scan_tags(registry, all.skip(i as int), all[at as int]),
                    None => scan_tags(registry, all, Seq::empty()) == scan_tags(
                        registry,
                        all.skip(i as int),
                        Seq::empty(),
                    ),
                },
            decreases tags@.len() - i,
        {
            proof {
                assert(all.skip(i as int)[0] == all[i as int]);
                assert(all.skip(i as int).drop_first() =~= all.skip(i + 1));
            }
            let tag = tags[i].as_str();
            proof {
                assert(all[i as int] == tag@);
                if tag@.len() == 0 {
                    assert(tag@ =~= Seq::<char>::empty());
                }
            }
            if holds_label(projects, tag) {
                match slot {
                    Some(at) => {
                        proof {
                            let rest = all.skip(i as int);
                            assert(rest.len() > 0);
                            assert(registry.contains(rest[0]));
                            assert(scan_tags(registry, rest, all[at as int]) is None);
                        }
                        return Err(Error::new(ErrorKind::IntervalWithMoreThanOneProject));
                    },
                    None => {
                        if tag.unicode_len() > 0 {
                            slot = Some(i);
                        }
                    },
                }
            }
            i += 1;
        }
        match slot {
            Some(at) => Ok(tags[at].clone()),
            None => Err(Error::new(ErrorKind::IntervalWithNoProjects)),
        }
    }

    /// Builds the interval of the record `inclusion`: finds its project,
    /// then decodes its start and its end by `clock`.
    ///
    /// Whether the record yields an interval does not depend on the clock:
    /// it fails exactly as [`build_failure`] says, and the interval that it
    /// yields else meets [`built_from`]. By a clock that stands still the
    /// result is exactly [`built_at`].
    pub fn build(&self, inclusion: Inclusion, clock: &Clock) -> (r: Result<Interval, Error>)
        ensures
            match build_failure(self@, inclusion@) {
                Some(kind) => r matches Err(e) && e@ == kind,
                None => r matches Ok(interval) && built_from(self@, inclusion@, interval@),
            },
            clock matches Clock::Fixed(at) ==> match built_at(self@, inclusion@, at@) {
                Ok(model) => r matches Ok(interval) && interval@ == model,
                Err(kind) => r matches Err(e) && e@ == kind,
            },
    {
        let project = match self.resolve(&inclusion.tags) {
            Ok(project) => project,
            Err(e) => {
                return Err(e);
            },
        };
        let start = match decode_instant(inclusion.start.as_str(), clock) {
            Ok(start) => start,
            Err(e) => {
                return Err(e);
            },
        };
        let end = match decode_instant(inclusion.end.as_str(), clock) {
            Ok(end) => end,
            Err(e) => {
                return Err(e);
            },
        };
        proof {
            if inclusion@.start.len() > 0 {
                let seconds = timestamp_seconds(inclusion@.start)->0;
                assert(weekday_at(seconds, start@.offset) == start@.weekday());
            }
        }
        Ok(Interval::spanning(project, &start, &end, Some(inclusion)))
    }

    /// Builds the interval of the record whose JSON text is `raw_json`, by
    /// `clock`.
    ///
    /// Whether the record yields an interval does not depend on the clock:
    /// it fails exactly as [`record_failure`] says, and the interval that it
    /// yields else meets [`built_from`]. By a clock that stands still the
    /// result is exactly [`interval_at`].
    pub fn new_interval_at(&self, raw_json: &str, clock: &Clock) -> (r: Result<Interval, Error>)
        ensures
            match record_failure(self@, raw_json@) {
                Some(kind) => r matches Err(e) && e@ == kind,
                None => r matches Ok(interval) && inclusion_of(raw_json@) is Some && built_from(
                    self@,
                    inclusion_of(raw_json@)->0,
                    interval@,
                ),
            },
            clock matches Clock::Fixed(at) ==> match interval_at(self@, raw_json@, at@) {
                Ok(model) => r matches Ok(interval) && interval@ == model,
                Err(kind) => r matches Err(e) && e@ == kind,
            },
    {
        match self.valid_projects.as_ref() {
            Some(projects) => {
                if projects.len() == 0 {
                    return Err(Error::new(ErrorKind::NoProjectsDefinedInConfig));
                }
            },
            None => {
                return Err(Error::new(ErrorKind::NoProjectsDefinedInConfig));
            },
        }
        match Inclusion::decode(raw_json) {
            Ok(inclusion) => self.build(inclusion, clock),
            Err(e) => Err(e),
        }
    }

    /// Builds the interval of the record whose JSON text is `raw_json`, by
    /// the clock of the machine.
    ///
    /// The record fails exactly as [`record_failure`] says: where no
    /// projects are loaded, where `raw_json` is no record, where its tags
    /// hold no project or more than one, and where its start or end is
    /// neither empty nor a timestamp, in that order. The interval that it
    /// yields else meets [`built_from`]; its weekday, and its length where
    /// start or end is empty, are what the machine says.
    pub fn new_interval(&self, raw_json: &str) -> (r: Result<Interval, Error>)
        ensures
            match record_failure(self@, raw_json@) {
                Some(kind) => r matches Err(e) && e@ == kind,
                None => r matches Ok(interval) && inclusion_of(raw_json@) is Some && built_from(
                    self@,
                    inclusion_of(raw_json@)->0,
                    interval@,
                ),
            },
    {
        self.new_interval_at(raw_json, &Clock::System)
    }
}

/// Why the JSON text `raw` of a record yields no interval whatever the
/// clock says, if that is so.
pub open spec fn record_failure(registry: Option<Seq<Seq<char>>>, raw: Seq<char>) -> Option<
    ErrorKind,
> {
    if registry is None || registry->0.len() == 0 {
        Some(ErrorKind::NoProjectsDefinedInConfig)
    } else {
        match inclusion_of(raw) {
            None => Some(ErrorKind::FailedToParseInclusions),
            Some(inclusion) => build_failure(registry, inclusion),
        }
    }
}

} // verus!
