//! The aggregator: groups the records of the combined log by source, keeps
//! each source's versions in the order in which they were first seen, and
//! reports the groups sorted by source.

use crate::json::{extract_field, first_member, parse_value, parsed_members};
use crate::text::{
    blank, is_blank, lemma_lex_irreflexive, lemma_lex_total, lemma_lex_transitive, lex_less, lines,
    split_lines, text_equal, text_less, texts,
};
use vstd::prelude::*;

verus! {

/// `indexmap::IndexMap`, held as it is: this library sees of it only the
/// order of its keys.
#[verifier::external_type_specification]
#[verifier::external_body]
#[verifier::reject_recursive_types(K)]
#[verifier::reject_recursive_types(V)]
#[verifier::reject_recursive_types(S)]
pub struct ExIndexMap<K, V, S>(indexmap::IndexMap<K, V, S>);

/// The keys of an `IndexMap`, in its order.
pub uninterp spec fn ordered_keys(map: indexmap::IndexMap<String, ()>) -> Seq<Seq<char>>;

/// `IndexMap::new`: a map without keys.
#[verifier::external_body]
fn new_key_list() -> (map: indexmap::IndexMap<String, ()>)
    ensures
        ordered_keys(map) == Seq::<Seq<char>>::empty(),
{
    indexmap::IndexMap::new()
}

/// `IndexMap::insert`: a key that the map holds stays where it is; a new key
/// comes last.
#[verifier::external_body]
fn insert_key(map: &mut indexmap::IndexMap<String, ()>, key: String)
    ensures
        ordered_keys(*final(map)) == (if ordered_keys(*old(map)).contains(key@) {
            ordered_keys(*old(map))
        } else {
            ordered_keys(*old(map)).push(key@)
        }),
{
    map.insert(key, ());
}

/// `IndexMap::into_keys`, collected: the keys in the map's order.
#[verifier::external_body]
fn into_key_list(map: indexmap::IndexMap<String, ()>) -> (keys: Vec<String>)
    ensures
        texts(keys@) == ordered_keys(map),
{
    map.into_keys().collect()
}

/// One group of the report: a source and its versions.
#[derive(Clone, Debug, PartialEq, Eq)]
pub struct GroupedResult {
    pub source: String,
    pub versions: Vec<String>,
}

/// A group as plain values.
pub struct GroupModel {
    pub key: Seq<char>,
    pub values: Seq<Seq<char>>,
}

impl View for GroupedResult {
    type V = GroupModel;

    open spec fn view(&self) -> GroupModel {
        GroupModel { key: self.source@, values: texts(self.versions@) }
    }
}

/// The groups of a vector as plain values.
pub open spec fn models(groups: Seq<GroupedResult>) -> Seq<GroupModel> {
    groups.map_values(|g: GroupedResult| g@)
}

/// `values` without its repetitions: of equal values the first stays, and the
/// order of what stays is kept.
pub open spec fn dedup_first(values: Seq<Seq<char>>) -> Seq<Seq<char>>
    decreases values.len(),
{
    if values.len() == 0 {
        Seq::empty()
    } else {
        let head = dedup_first(values.drop_last());
        if head.contains(values.last()) {
            head
        } else {
            head.push(values.last())
        }
    }
}

/// Groups in strictly ascending lexical order of their keys.
pub open spec fn ascending(groups: Seq<GroupModel>) -> bool {
    forall|i: int, j: int|
        0 <= i < j < groups.len() ==> lex_less(
            (#[trigger] groups[i]).key,
            (#[trigger] groups[j]).key,
        )
}

/// Whether one of `groups` has the key `key`.
pub open spec fn holds_key(groups: Seq<GroupModel>, key: Seq<char>) -> bool {
    exists|i: int| 0 <= i < groups.len() && (#[trigger] groups[i]).key == key
}

/// The place of the group with the key `key`.
pub open spec fn index_of(groups: Seq<GroupModel>, key: Seq<char>) -> int {
    choose|i: int| 0 <= i < groups.len() && (#[trigger] groups[i]).key == key
}

/// The groups as a map from key to values.
pub open spec fn as_map(groups: Seq<GroupModel>) -> Map<Seq<char>, Seq<Seq<char>>> {
    Map::new(
        |key: Seq<char>| holds_key(groups, key),
        |key: Seq<char>| groups[index_of(groups, key)].values,
    )
}

/// The number of values in all groups together.
pub open spec fn total_values(groups: Seq<GroupModel>) -> nat
    decreases groups.len(),
{
    if groups.len() == 0 {
        0
    } else {
        total_values(groups.drop_last()) + groups.last().values.len()
    }
}

/// The names under which a record may hold its source, in order of choice.
pub open spec fn source_names() -> Seq<Seq<char>> {
    seq!["Path"@, "path"@]
}

/// The names under which a record may hold its version, in order of choice.
pub open spec fn version_names() -> Seq<Seq<char>> {
    seq!["Version"@, "version"@]
}

/// The source and version of the record that `line` holds; `None` where the
/// line is no JSON or lacks one of the two.
pub open spec fn line_entry(line: Seq<char>) -> Option<(Seq<char>, Seq<char>)> {
    match parsed_members(line) {
        None => None,
        Some(members) => match (
            first_member(members, source_names()),
            first_member(members, version_names()),
        ) {
            (Some(source), Some(version)) => Some((source, version)),
            _ => None,
        },
    }
}

/// The state of an aggregation as plain values.
pub struct AggregatorModel {
    /// The versions seen of each source, repetitions included, in the order
    /// in which they came.
    pub groups: Map<Seq<char>, Seq<Seq<char>>>,
    /// Lines taken in, blank ones included.
    pub lines: nat,
    /// Records taken into a group.
    pub processed: nat,
    /// Lines that were no record.
    pub errors: nat,
}

/// The versions seen of `key` so far.
pub open spec fn seen_of(groups: Map<Seq<char>, Seq<Seq<char>>>, key: Seq<char>) -> Seq<Seq<char>> {
    if groups.contains_key(key) {
        groups[key]
    } else {
        Seq::empty()
    }
}

/// The state after a line that held the record of `version` of `source`.
pub open spec fn spec_add(
    model: AggregatorModel,
    source: Seq<char>,
    version: Seq<char>,
) -> AggregatorModel {
    AggregatorModel {
        groups: model.groups.insert(source, seen_of(model.groups, source).push(version)),
        lines: model.lines + 1,
        processed: model.processed + 1,
        errors: model.errors,
    }
}

/// The state after a line that is no record.
pub open spec fn spec_reject(model: AggregatorModel) -> AggregatorModel {
    AggregatorModel { lines: model.lines + 1, errors: model.errors + 1, ..model }
}

/// The state after one more line: a blank line only counts as a line, a line
/// without a record is an error, any other adds its record.
pub open spec fn spec_feed(model: AggregatorModel, line: Seq<char>) -> AggregatorModel {
    if blank(line) {
        AggregatorModel { lines: model.lines + 1, ..model }
    } else {
        match line_entry(line) {
            None => spec_reject(model),
            Some(entry) => spec_add(model, entry.0, entry.1),
        }
    }
}

/// The state before the first line.
pub open spec fn fresh_model() -> AggregatorModel {
    AggregatorModel { groups: Map::empty(), lines: 0, processed: 0, errors: 0 }
}

/// The state after `lines`, taken in order.
pub open spec fn feed_all(model: AggregatorModel, lines: Seq<Seq<char>>) -> AggregatorModel
    decreases lines.len(),
{
    if lines.len() == 0 {
        model
    } else {
        spec_feed(feed_all(model, lines.drop_last()), lines.last())
    }
}

/// Whether `report` is the report of `groups`: one group for each key, in
/// strictly ascending order of the keys, each with the key's values without
/// repetitions.
pub open spec fn reports(report: Seq<GroupModel>, groups: Map<Seq<char>, Seq<Seq<char>>>) -> bool {
    &&& ascending(report)
    &&& forall|key: Seq<char>| groups.contains_key(key) <==> holds_key(report, key)
    &&& forall|i: int|
        0 <= i < report.len() ==> groups.contains_key((#[trigger] report[i]).key)
            && report[i].values == dedup_first(groups[report[i].key])
}

/// In ascending groups every key stands at one place only.
pub proof fn lemma_key_place(groups: Seq<GroupModel>, i: int)
    requires
        ascending(groups),
        0 <= i < groups.len(),
    ensures
        holds_key(groups, groups[i].key),
        index_of(groups, groups[i].key) == i,
{
    let key = groups[i].key;
    let j = index_of(groups, key);
    lemma_lex_irreflexive(key);
    if j < i {
        assert(lex_less(groups[j].key, groups[i].key));
    } else if i < j {
        assert(lex_less(groups[i].key, groups[j].key));
    }
}

/// Giving new values to the group at `i` is an insertion into the map.
proof fn lemma_update(groups: Seq<GroupModel>, i: int, values: Seq<Seq<char>>)
    requires
        ascending(groups),
        0 <= i < groups.len(),
    ensures
        ascending(groups.update(i, GroupModel { key: groups[i].key, values })),
        as_map(groups.update(i, GroupModel { key: groups[i].key, values })) == as_map(
            groups,
        ).insert(groups[i].key, values),
        total_values(groups.update(i, GroupModel { key: groups[i].key, values })) == total_values(
            groups,
        ) - groups[i].values.len() + values.len(),
{
    let key = groups[i].key;
    let after = groups.update(i, GroupModel { key, values });
    assert(ascending(after)) by {
        assert forall|a: int, b: int| 0 <= a < b < after.len() implies lex_less(
            (#[trigger] after[a]).key,
            (#[trigger] after[b]).key,
        ) by {
            assert(lex_less(groups[a].key, groups[b].key));
        }
    }
    assert forall|k: Seq<char>| holds_key(after, k) == holds_key(groups, k) by {
        if holds_key(after, k) {
            let j = index_of(after, k);
            assert(groups[j].key == k);
        }
        if holds_key(groups, k) {
            let j = index_of(groups, k);
            assert(after[j].key == k);
        }
    }
    assert forall|k: Seq<char>| holds_key(after, k) implies #[trigger] as_map(after)[k] == as_map(
        groups,
    ).insert(key, values)[k] by {
        let j = index_of(after, k);
        lemma_key_place(after, j);
        assert(groups[j].key == k);
        lemma_key_place(groups, j);
        lemma_key_place(groups, i);
        if j != i {
            assert(after[j] == groups[j]);
            assert(k != key);
        }
    }
    lemma_key_place(groups, i);
    assert(as_map(after) =~= as_map(groups).insert(key, values));
    lemma_total_update(groups, i, GroupModel { key, values });
}

/// A new group at its place in the order is an insertion into the map.
proof fn lemma_insert(groups: Seq<GroupModel>, at: int, group: GroupModel)
    requires
        ascending(groups),
        0 <= at <= groups.len(),
        forall|j: int| 0 <= j < at ==> lex_less((#[trigger] groups[j]).key, group.key),
        forall|j: int| at <= j < groups.len() ==> lex_less(group.key, (#[trigger] groups[j]).key),
    ensures
        !holds_key(groups, group.key),
        ascending(groups.insert(at, group)),
        as_map(groups.insert(at, group)) == as_map(groups).insert(group.key, group.values),
        total_values(groups.insert(at, group)) == total_values(groups) + group.values.len(),
{
    let after = groups.insert(at, group);
    lemma_lex_irreflexive(group.key);
    assert(!holds_key(groups, group.key)) by {
        if holds_key(groups, group.key) {
            let j = index_of(groups, group.key);
            if j < at {
                assert(lex_less(groups[j].key, group.key));
            } else {
                assert(lex_less(group.key, groups[j].key));
            }
        }
    }
    assert(ascending(after)) by {
        assert forall|a: int, b: int| 0 <= a < b < after.len() implies lex_less(
            (#[trigger] after[a]).key,
            (#[trigger] after[b]).key,
        ) by {
            if a < at && b > at {
                assert(lex_less(groups[a].key, groups[b - 1].key));
            } else if a < at && b == at {
                assert(lex_less(groups[a].key, group.key));
            } else if a < at {
                assert(lex_less(groups[a].key, groups[b].key));
            } else if a == at {
                assert(lex_less(group.key, groups[b - 1].key));
            } else {
                assert(lex_less(groups[a - 1].key, groups[b - 1].key));
            }
        }
    }
    assert forall|k: Seq<char>| holds_key(after, k) == (k == group.key || holds_key(groups, k)) by {
        if holds_key(after, k) {
            let j = index_of(after, k);
            if j < at {
                assert(groups[j].key == k);
            } else if j > at {
                assert(groups[j - 1].key == k);
            }
        }
        if holds_key(groups, k) {
            let j = index_of(groups, k);
            if j < at {
                assert(after[j].key == k);
            } else {
                assert(after[j + 1].key == k);
            }
        }
        if k == group.key {
            assert(after[at].key == k);
        }
    }
    assert forall|k: Seq<char>| holds_key(after, k) implies #[trigger] as_map(after)[k] == as_map(
        groups,
    ).insert(group.key, group.values)[k] by {
        let j = index_of(after, k);
        lemma_key_place(after, j);
        if j < at {
            assert(groups[j].key == k);
            lemma_key_place(groups, j);
        } else if j > at {
            assert(groups[j - 1].key == k);
            lemma_key_place(groups, j - 1);
        }
    }
    assert(as_map(after) =~= as_map(groups).insert(group.key, group.values));
    lemma_total_insert(groups, at, group);
}

proof fn lemma_total_update(groups: Seq<GroupModel>, i: int, group: GroupModel)
    requires
        0 <= i < groups.len(),
    ensures
        total_values(groups.update(i, group)) == total_values(groups) - groups[i].values.len()
            + group.values.len(),
    decreases groups.len(),
{
    let after = groups.update(i, group);
    if i == groups.len() - 1 {
        assert(after.drop_last() =~= groups.drop_last());
    } else {
        assert(after.drop_last() =~= groups.drop_last().update(i, group));
        lemma_total_update(groups.drop_last(), i, group);
    }
}

proof fn lemma_total_insert(groups: Seq<GroupModel>, at: int, group: GroupModel)
    requires
        0 <= at <= groups.len(),
    ensures
        total_values(groups.insert(at, group)) == total_values(groups) + group.values.len(),
    decreases groups.len(),
{
    let after = groups.insert(at, group);
    if at == groups.len() {
        assert(after.drop_last() =~= groups);
    } else {
        assert(after.drop_last() =~= groups.drop_last().insert(at, group));
        assert(after.last() == groups.last());
        lemma_total_insert(groups.drop_last(), at, group);
    }
}

/// The total of the values is at least the number of values of any part.
proof fn lemma_total_prefix(groups: Seq<GroupModel>, upto: int)
    requires
        0 <= upto <= groups.len(),
    ensures
        total_values(groups.subrange(0, upto)) <= total_values(groups),
    decreases groups.len() - upto,
{
    if upto < groups.len() {
        lemma_total_prefix(groups, upto + 1);
        assert(groups.subrange(0, upto + 1).drop_last() =~= groups.subrange(0, upto));
    } else {
        assert(groups.subrange(0, upto) =~= groups);
    }
}

/// Removing repetitions never adds a value.
pub proof fn lemma_dedup_shorter(values: Seq<Seq<char>>)
    ensures
        dedup_first(values).len() <= values.len(),
    decreases values.len(),
{
    if values.len() > 0 {
        lemma_dedup_shorter(values.drop_last());
    }
}

/// Removes the repetitions in `versions`: of equal versions the first stays,
/// and what stays keeps its order.
pub fn remove_duplicates_preserve_order(versions: Vec<String>) -> (unique: Vec<String>)
    ensures
        texts(unique@) == dedup_first(texts(versions@)),
{
    dedup_texts(&versions)
}

fn dedup_texts(versions: &Vec<String>) -> (unique: Vec<String>)
    ensures
        texts(unique@) == dedup_first(texts(versions@)),
{
    let mut seen = new_key_list();
    let mut i: usize = 0;
    assert(texts(versions@).subrange(0, 0) =~= Seq::empty());
    while i < versions.len()
        invariant
            i <= versions@.len(),
            ordered_keys(seen) == dedup_first(texts(versions@).subrange(0, i as int)),
        decreases versions@.len() - i,
    {
        proof {
            let done = texts(versions@).subrange(0, i + 1);
            assert(done.drop_last() =~= texts(versions@).subrange(0, i as int));
            assert(done.last() == versions@[i as int]@);
        }
        insert_key(&mut seen, versions[i].clone());
        i += 1;
    }
    assert(texts(versions@).subrange(0, i as int) =~= texts(versions@));
    into_key_list(seen)
}

/// An aggregation under way.
#[derive(Clone, Debug, PartialEq, Eq)]
pub struct Aggregator {
    /// The groups so far, in ascending order of their sources.
    pub groups: Vec<GroupedResult>,
    /// Lines taken in, blank ones included.
    pub lines: usize,
    /// Records taken into a group.
    pub processed: usize,
    /// Lines that were no record.
    pub errors: usize,
}

/// The outcome of an aggregation.
#[derive(Clone, Debug, PartialEq, Eq)]
pub struct Report {
    /// The groups, sorted by source, each without repeated versions.
    pub groups: Vec<GroupedResult>,
    /// The number of sources.
    pub unique_sources: usize,
    /// The number of versions of all sources together.
    pub total_versions: usize,
    /// Lines that were no record.
    pub errors: usize,
}

impl View for Aggregator {
    type V = AggregatorModel;

    open spec fn view(&self) -> AggregatorModel {
        AggregatorModel {
            groups: as_map(models(self.groups@)),
            lines: self.lines as nat,
            processed: self.processed as nat,
            errors: self.errors as nat,
        }
    }
}

impl Aggregator {
    /// The invariant of an aggregation: the groups are in order, every record
    /// taken in is in a group, and no more lines were judged than came.
    pub open spec fn wf(&self) -> bool {
        &&& ascending(models(self.groups@))
        &&& self.processed == total_values(models(self.groups@))
        &&& self.processed + self.errors <= self.lines
    }

    /// An aggregation that has seen nothing yet.
    pub fn new() -> (fresh: Aggregator)
        ensures
            fresh.wf(),
            fresh@ == fresh_model(),
    {
        let fresh = Aggregator { groups: Vec::new(), lines: 0, processed: 0, errors: 0 };
        assert(fresh@.groups =~= Map::empty());
        fresh
    }

    /// Finds the place of `key` among the groups: where its group stands, or
    /// where it would have to stand.
    fn locate(&self, key: &str) -> (place: (usize, bool))
        requires
            self.wf(),
        ensures
            place.0 <= self.groups@.len(),
            forall|j: int|
                0 <= j < place.0 ==> lex_less((#[trigger] models(self.groups@)[j]).key, key@),
            place.1 ==> place.0 < self.groups@.len() && models(self.groups@)[place.0 as int].key
                == key@,
            !place.1 ==> forall|j: int|
                place.0 <= j < self.groups@.len() ==> lex_less(
                    key@,
                    (#[trigger] models(self.groups@)[j]).key,
                ),
    {
        let ghost groups = models(self.groups@);
        let mut low: usize = 0;
        let mut high: usize = self.groups.len();
        while low < high
            invariant
                groups == models(self.groups@),
                ascending(groups),
                low <= high <= groups.len(),
                forall|j: int| 0 <= j < low ==> lex_less((#[trigger] groups[j]).key, key@),
                forall|j: int| high <= j < groups.len() ==> !lex_less((#[trigger] groups[j]).key, key@),
            decreases high - low,
        {
            let middle = low + (high - low) / 2;
            assert(groups[middle as int].key == self.groups@[middle as int].source@);
            if text_less(self.groups[middle].source.as_str(), key) {
                proof {
                    assert forall|j: int| 0 <= j < middle + 1 implies lex_less(
                        (#[trigger] groups[j]).key,
                        key@,
                    ) by {
                        if j < middle {
                            assert(lex_less(groups[j].key, groups[middle as int].key));
                            lemma_lex_transitive(groups[j].key, groups[middle as int].key, key@);
                        }
                    }
                }
                low = middle + 1;
            } else {
                proof {
                    assert forall|j: int| middle <= j < groups.len() implies !lex_less(
                        (#[trigger] groups[j]).key,
                        key@,
                    ) by {
                        if middle < j && lex_less(groups[j].key, key@) {
                            assert(lex_less(groups[middle as int].key, groups[j].key));
                            lemma_lex_transitive(groups[middle as int].key, groups[j].key, key@);
                        }
                    }
                }
                high = middle;
            }
        }
        if low < self.groups.len() {
            assert(groups[low as int].key == self.groups@[low as int].source@);
            if text_equal(self.groups[low].source.as_str(), key) {
                return (low, true);
            }
        }
        proof {
            assert forall|j: int| low <= j < groups.len() implies lex_less(
                key@,
                (#[trigger] groups[j]).key,
            ) by {
                lemma_lex_total(key@, groups[low as int].key);
                assert(lex_less(key@, groups[low as int].key));
                if low < j {
                    assert(lex_less(groups[low as int].key, groups[j].key));
                    lemma_lex_transitive(key@, groups[low as int].key, groups[j].key);
                }
            }
        }
        (low, false)
    }

    /// Takes in a line that held one record: `version` becomes the last
    /// version seen of `source`.
    pub fn add(&mut self, source: String, version: String)
        requires
            old(self).wf(),
            old(self).lines < usize::MAX,
        ensures
            final(self).wf(),
            final(self)@ == spec_add(old(self)@, source@, version@),
    {
        let ghost before = models(self.groups@);
        let place = self.locate(source.as_str());
        let at = place.0;
        if place.1 {
            proof {
                lemma_key_place(before, at as int);
                lemma_update(before, at as int, before[at as int].values.push(version@));
            }
            self.groups[at].versions.push(version);
            proof {
                let after = models(self.groups@);
                assert(texts(self.groups@[at as int].versions@) =~= before[at as int].values.push(
                    version@,
                ));
                assert(after =~= before.update(
                    at as int,
                    GroupModel {
                        key: before[at as int].key,
                        values: before[at as int].values.push(version@),
                    },
                ));
            }
        } else {
            let mut versions: Vec<String> = Vec::new();
            versions.push(version);
            let group = GroupedResult { source, versions };
            proof {
                assert(group@.values =~= Seq::<Seq<char>>::empty().push(version@));
                lemma_insert(before, at as int, group@);
            }
            self.groups.insert(at, group);
            proof {
                assert(models(self.groups@) =~= before.insert(at as int, group@));
            }
        }
        self.lines = self.lines + 1;
        self.processed = self.processed + 1;
    }

    /// Counts a line that held no record.
    pub fn reject(&mut self)
        requires
            old(self).wf(),
            old(self).lines < usize::MAX,
        ensures
            final(self).wf(),
            final(self)@ == spec_reject(old(self)@),
    {
        self.lines = self.lines + 1;
        self.errors = self.errors + 1;
    }

    /// Takes in one line of the combined log.
    pub fn feed_line(&mut self, line: &str)
        requires
            old(self).wf(),
            old(self).lines < usize::MAX,
        ensures
            final(self).wf(),
            final(self)@ == spec_feed(old(self)@, line@),
    {
        if is_blank(line) {
            self.lines = self.lines + 1;
            return ;
        }
        let value = match parse_value(line) {
            Some(value) => value,
            None => {
                self.reject();
                return ;
            },
        };
        let source_fields: Vec<&str> = vec!["Path", "path"];
        let version_fields: Vec<&str> = vec!["Version", "version"];
        proof {
            assert(crate::json::names_of(source_fields@) =~= source_names());
            assert(crate::json::names_of(version_fields@) =~= version_names());
        }
        let source = match extract_field(&value, source_fields.as_slice()) {
            Some(source) => source,
            None => {
                self.reject();
                return ;
            },
        };
        let version = match extract_field(&value, version_fields.as_slice()) {
            Some(version) => version,
            None => {
                self.reject();
                return ;
            },
        };
        self.add(source, version);
    }

    /// Ends the aggregation: every source once, in ascending lexical order,
    /// with its versions in the order in which each was first seen.
    pub fn finish(&self) -> (report: Report)
        requires
            self.wf(),
        ensures
            reports(models(report.groups@), self@.groups),
            report.unique_sources == report.groups@.len(),
            report.total_versions == total_values(models(report.groups@)),
            report.errors == self.errors,
    {
        let ghost raw = models(self.groups@);
        let mut groups: Vec<GroupedResult> = Vec::new();
        let mut total: usize = 0;
        let mut i: usize = 0;
        assert(raw.subrange(0, 0) =~= Seq::empty());
        while i < self.groups.len()
            invariant
                raw == models(self.groups@),
                self.wf(),
                i <= raw.len(),
                groups@.len() == i,
                forall|j: int|
                    0 <= j < i ==> (#[trigger] models(groups@)[j]).key == raw[j].key && models(
                        groups@,
                    )[j].values == dedup_first(raw[j].values),
                total == total_values(models(groups@)),
                total <= total_values(raw.subrange(0, i as int)),
            decreases raw.len() - i,
        {
            let unique = dedup_texts(&self.groups[i].versions);
            let group = GroupedResult { source: self.groups[i].source.clone(), versions: unique };
            proof {
                lemma_dedup_shorter(raw[i as int].values);
                lemma_total_prefix(raw, i + 1);
                assert(raw.subrange(0, i + 1).drop_last() =~= raw.subrange(0, i as int));
                assert(models(groups@.push(group)) =~= models(groups@).push(group@));
                assert(models(groups@).push(group@).drop_last() =~= models(groups@));
            }
            total = total + unique_len(&group);
            groups.push(group);
            i += 1;
        }
        proof {
            let out = models(groups@);
            assert forall|a: int, b: int| 0 <= a < b < out.len() implies lex_less(
                (#[trigger] out[a]).key,
                (#[trigger] out[b]).key,
            ) by {
                assert(lex_less(raw[a].key, raw[b].key));
            }
            assert forall|key: Seq<char>| self@.groups.contains_key(key) <==> holds_key(
                out,
                key,
            ) by {
                if holds_key(raw, key) {
                    let j = index_of(raw, key);
                    assert(out[j].key == key);
                }
                if holds_key(out, key) {
                    let j = index_of(out, key);
                    assert(raw[j].key == key);
                }
            }
            assert forall|j: int| 0 <= j < out.len() implies self@.groups.contains_key(
                (#[trigger] out[j]).key,
            ) && out[j].values == dedup_first(self@.groups[out[j].key]) by {
                lemma_key_place(raw, j);
            }
        }
        let unique_sources = groups.len();
        Report { groups, unique_sources, total_versions: total, errors: self.errors }
    }
}

/// Aggregates a combined log held in memory: every line is taken in, in
/// order, and the report is made of what they held.
pub fn process_output(text: &str) -> (report: Report)
    ensures
        reports(models(report.groups@), feed_all(fresh_model(), lines(text@)).groups),
        report.errors == feed_all(fresh_model(), lines(text@)).errors,
        report.unique_sources == report.groups@.len(),
        report.total_versions == total_values(models(report.groups@)),
{
    let all = split_lines(text);
    let mut aggregator = Aggregator::new();
    let mut i: usize = 0;
    assert(texts(all@).subrange(0, 0) =~= Seq::empty());
    while i < all.len()
        invariant
            i <= all@.len(),
            texts(all@) == lines(text@),
            aggregator.wf(),
            aggregator.lines == i,
            aggregator@ == feed_all(fresh_model(), texts(all@).subrange(0, i as int)),
        decreases all@.len() - i,
    {
        proof {
            let done = texts(all@).subrange(0, i + 1);
            assert(done.drop_last() =~= texts(all@).subrange(0, i as int));
            assert(done.last() == all@[i as int]@);
        }
        aggregator.feed_line(all[i].as_str());
        i += 1;
    }
    assert(texts(all@).subrange(0, i as int) =~= texts(all@));
    aggregator.finish()
}

/// A line that is neither blank nor JSON is one more error, and no group
/// changes.
pub proof fn lemma_malformed_line_is_counted(model: AggregatorModel, line: Seq<char>)
    requires
        !blank(line),
        parsed_members(line) is None,
    ensures
        spec_feed(model, line).errors == model.errors + 1,
        spec_feed(model, line).groups == model.groups,
        spec_feed(model, line).processed == model.processed,
{
}

/// Two sequences of groups in ascending order with the same keys have them
/// at the same places.
proof fn lemma_same_keys_same_places(a: Seq<GroupModel>, b: Seq<GroupModel>)
    requires
        ascending(a),
        ascending(b),
        forall|key: Seq<char>| holds_key(a, key) <==> holds_key(b, key),
    ensures
        a.len() == b.len(),
        forall|i: int| 0 <= i < a.len() ==> (#[trigger] a[i]).key == b[i].key,
    decreases a.len(),
{
    if a.len() == 0 {
        if b.len() > 0 {
            assert(holds_key(b, b[0].key));
            let i = index_of(a, b[0].key);
        }
    } else {
        assert(holds_key(a, a[0].key));
        let j = index_of(b, a[0].key);
        assert(holds_key(b, b[0].key));
        let i = index_of(a, b[0].key);
        lemma_lex_irreflexive(a[0].key);
        if j > 0 {
            assert(lex_less(b[0].key, b[j].key));
            if i > 0 {
                assert(lex_less(a[0].key, a[i].key));
                lemma_lex_transitive(a[0].key, b[0].key, a[0].key);
            }
        }
        assert(a[0].key == b[0].key);
        let ra = a.drop_first();
        let rb = b.drop_first();
        assert forall|key: Seq<char>| holds_key(ra, key) <==> holds_key(rb, key) by {
            if holds_key(ra, key) {
                let n = index_of(ra, key);
                assert(a[n + 1].key == key);
                assert(holds_key(a, key));
                let m = index_of(b, key);
                lemma_lex_irreflexive(key);
                if m == 0 {
                    assert(lex_less(a[0].key, a[n + 1].key));
                }
                assert(rb[m - 1].key == key);
            }
            if holds_key(rb, key) {
                let n = index_of(rb, key);
                assert(b[n + 1].key == key);
                assert(holds_key(b, key));
                let m = index_of(a, key);
                lemma_lex_irreflexive(key);
                if m == 0 {
                    assert(lex_less(b[0].key, b[n + 1].key));
                }
                assert(ra[m - 1].key == key);
            }
        }
        assert(ascending(ra)) by {
            assert forall|x: int, y: int| 0 <= x < y < ra.len() implies lex_less(
                (#[trigger] ra[x]).key,
                (#[trigger] ra[y]).key,
            ) by {
                assert(lex_less(a[x + 1].key, a[y + 1].key));
            }
        }
        assert(ascending(rb)) by {
            assert forall|x: int, y: int| 0 <= x < y < rb.len() implies lex_less(
                (#[trigger] rb[x]).key,
                (#[trigger] rb[y]).key,
            ) by {
                assert(lex_less(b[x + 1].key, b[y + 1].key));
            }
        }
        lemma_same_keys_same_places(ra, rb);
        assert forall|i: int| 0 <= i < a.len() implies (#[trigger] a[i]).key == b[i].key by {
            if i > 0 {
                assert(ra[i - 1].key == rb[i - 1].key);
            }
        }
    }
}

/// The records seen decide the report, and nothing else does: whatever the
/// order in which the sources came up, there is one report of them only.
pub proof fn lemma_report_unique(
    first: Seq<GroupModel>,
    second: Seq<GroupModel>,
    groups: Map<Seq<char>, Seq<Seq<char>>>,
)
    requires
        reports(first, groups),
        reports(second, groups),
    ensures
        first == second,
{
    lemma_same_keys_same_places(first, second);
    assert forall|i: int| 0 <= i < first.len() implies first[i] == second[i] by {
        assert(first[i].key == second[i].key);
        assert(first[i].values == dedup_first(groups[first[i].key]));
        assert(second[i].values == dedup_first(groups[second[i].key]));
    }
    assert(first =~= second);
}

/// The number of versions of a group.
fn unique_len(group: &GroupedResult) -> (len: usize)
    ensures
        len == group@.values.len(),
{
    group.versions.len()
}

} // verus!
