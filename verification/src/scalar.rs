//! Scalar metadata values, their order and their statistics.

use crate::float::{double_units, law_double_patterns_order};
use crate::json::{FieldModel, JsonField, JsonModel, JsonNumber, JsonValue};
use crate::text::{
    compare_texts, lemma_text_order, lemma_text_order_transitive, text_order, Comparison,
};
use vstd::prelude::*;

verus! {

/// Scalar metadata value that filters and statistics work on.
#[derive(Debug, PartialEq, Eq)]
pub enum ScalarMetadataValue {
    /// A text.
    String(String),
    /// A number.
    Number(JsonNumber),
    /// A truth value.
    Bool(bool),
    /// The absence of a value.
    Null,
}

/// Model of a scalar metadata value.
#[verifier::ext_equal]
pub enum ScalarModel {
    String(Seq<char>),
    Number(JsonNumber),
    Bool(bool),
    Null,
}

impl View for ScalarMetadataValue {
    type V = ScalarModel;

    open spec fn view(&self) -> ScalarModel {
        match self {
            ScalarMetadataValue::String(value) => ScalarModel::String(value@),
            ScalarMetadataValue::Number(value) => ScalarModel::Number(*value),
            ScalarMetadataValue::Bool(value) => ScalarModel::Bool(*value),
            ScalarMetadataValue::Null => ScalarModel::Null,
        }
    }
}

impl Clone for ScalarMetadataValue {
    fn clone(&self) -> (copy: Self)
        ensures
            copy@ == self@,
    {
        match self {
            ScalarMetadataValue::String(value) => ScalarMetadataValue::String(value.clone()),
            ScalarMetadataValue::Number(value) => ScalarMetadataValue::Number(*value),
            ScalarMetadataValue::Bool(value) => ScalarMetadataValue::Bool(*value),
            ScalarMetadataValue::Null => ScalarMetadataValue::Null,
        }
    }
}

/// The scalar that a JSON value is; arrays and objects are none.
pub open spec fn scalar_of_json(value: JsonModel) -> Option<ScalarModel> {
    match value {
        JsonModel::Null => Some(ScalarModel::Null),
        JsonModel::Bool(held) => Some(ScalarModel::Bool(held)),
        JsonModel::Number(held) => Some(ScalarModel::Number(held)),
        JsonModel::Text(held) => Some(ScalarModel::String(held)),
        JsonModel::Array => None,
        JsonModel::Object => None,
    }
}

/// Model of an optional scalar.
pub open spec fn optional_scalar(value: Option<ScalarMetadataValue>) -> Option<ScalarModel> {
    match value {
        None => None,
        Some(scalar) => Some(scalar@),
    }
}

impl ScalarMetadataValue {
    /// The scalar that a JSON value is; arrays and objects are none.
    pub fn from_json(value: &JsonValue) -> (scalar: Option<Self>)
        ensures
            optional_scalar(scalar) == scalar_of_json(value@),
    {
        match value {
            JsonValue::Null => Some(ScalarMetadataValue::Null),
            JsonValue::Bool(held) => Some(ScalarMetadataValue::Bool(*held)),
            JsonValue::Number(held) => Some(ScalarMetadataValue::Number(*held)),
            JsonValue::Text(held) => Some(ScalarMetadataValue::String(held.clone())),
            JsonValue::Array => None,
            JsonValue::Object => None,
        }
    }
}

/// Distance of a binary64 bit pattern from the pattern of zero of the same sign.
pub open spec fn double_magnitude(bits: u64) -> int {
    if bits >= 0x8000_0000_0000_0000 {
        bits - 0x8000_0000_0000_0000
    } else {
        bits as int
    }
}

/// Position of a double that is not a NaN among all of them; both zeros share one.
pub open spec fn double_rank(bits: u64) -> int {
    if bits >= 0x8000_0000_0000_0000 {
        -double_magnitude(bits)
    } else {
        double_magnitude(bits)
    }
}

/// How two integers compare.
pub open spec fn int_order(left: int, right: int) -> Comparison {
    if left < right {
        Comparison::Less
    } else if left > right {
        Comparison::Greater
    } else {
        Comparison::Equal
    }
}

/// How two doubles compare; a NaN compares as equal to everything.
pub open spec fn double_order(left: u64, right: u64) -> Comparison {
    if double_magnitude(left) > 0x7ff0_0000_0000_0000 || double_magnitude(right)
        > 0x7ff0_0000_0000_0000 {
        Comparison::Equal
    } else {
        int_order(double_rank(left), double_rank(right))
    }
}

/// The double that stands for a number; zero where there is none.
pub open spec fn double_or_zero(number: JsonNumber) -> u64 {
    match number.double_bits {
        Some(bits) => bits,
        None => 0,
    }
}

/// How two numbers compare: as signed integers where both are, else as unsigned
/// integers where both are, else as doubles.
pub open spec fn number_order(left: JsonNumber, right: JsonNumber) -> Comparison {
    if left.signed is Some && right.signed is Some {
        int_order(left.signed->0 as int, right.signed->0 as int)
    } else if left.unsigned is Some && right.unsigned is Some {
        int_order(left.unsigned->0 as int, right.unsigned->0 as int)
    } else {
        double_order(double_or_zero(left), double_or_zero(right))
    }
}

/// Position of a kind of scalar among all kinds.
pub open spec fn kind_rank(value: ScalarModel) -> int {
    match value {
        ScalarModel::Null => 0,
        ScalarModel::Bool(_) => 1,
        ScalarModel::Number(_) => 2,
        ScalarModel::String(_) => 3,
    }
}

/// How two scalars compare: by kind, and within a kind by value.
pub open spec fn scalar_order(left: ScalarModel, right: ScalarModel) -> Comparison {
    match (left, right) {
        (ScalarModel::String(first), ScalarModel::String(second)) => text_order(first, second),
        (ScalarModel::Bool(first), ScalarModel::Bool(second)) => if first == second {
            Comparison::Equal
        } else if second {
            Comparison::Less
        } else {
            Comparison::Greater
        },
        (ScalarModel::Number(first), ScalarModel::Number(second)) => number_order(first, second),
        _ => int_order(kind_rank(left), kind_rank(right)),
    }
}

fn double_rank_of(bits: u64) -> (rank: i128)
    ensures
        rank == double_rank(bits),
{
    if bits >= 0x8000_0000_0000_0000 {
        -((bits - 0x8000_0000_0000_0000) as i128)
    } else {
        bits as i128
    }
}

fn compare_ranks(left: i128, right: i128) -> (order: Comparison)
    ensures
        order == int_order(left as int, right as int),
{
    if left < right {
        Comparison::Less
    } else if left > right {
        Comparison::Greater
    } else {
        Comparison::Equal
    }
}

/// Compare two numbers.
pub fn compare_numbers(left: &JsonNumber, right: &JsonNumber) -> (order: Comparison)
    ensures
        order == number_order(*left, *right),
        left.signed is Some && right.signed is Some ==> (order == Comparison::Less
            <==> left.signed->0 < right.signed->0) && (order == Comparison::Greater
            <==> left.signed->0 > right.signed->0),
        left.signed is None && left.unsigned is None ==> (left.double_bits matches Some(first) ==> (
        right.double_bits matches Some(second) ==> (first % 0x8000_0000_0000_0000
            <= 0x7ff0_0000_0000_0000 && second % 0x8000_0000_0000_0000 <= 0x7ff0_0000_0000_0000 ==> (
        order == Comparison::Less <==> double_units(first) < double_units(second)) && (order
            == Comparison::Greater <==> double_units(first) > double_units(second))))),
{
    proof {
        law_numbers_compare_as_numbers(*left, *right);
    }
    if let (Some(first), Some(second)) = (left.signed, right.signed) {
        return compare_ranks(first as i128, second as i128);
    }
    if let (Some(first), Some(second)) = (left.unsigned, right.unsigned) {
        return compare_ranks(first as i128, second as i128);
    }
    let first: u64 = match left.double_bits {
        Some(bits) => bits,
        None => 0,
    };
    let second: u64 = match right.double_bits {
        Some(bits) => bits,
        None => 0,
    };
    let first_rank: i128 = double_rank_of(first);
    let second_rank: i128 = double_rank_of(second);
    let largest: i128 = 0x7ff0_0000_0000_0000;
    if first_rank > largest || first_rank < -largest || second_rank > largest || second_rank
        < -largest {
        return Comparison::Equal;
    }
    compare_ranks(first_rank, second_rank)
}

fn kind_rank_of(value: &ScalarMetadataValue) -> (rank: i128)
    ensures
        rank == kind_rank(value@),
{
    match value {
        ScalarMetadataValue::Null => 0,
        ScalarMetadataValue::Bool(_) => 1,
        ScalarMetadataValue::Number(_) => 2,
        ScalarMetadataValue::String(_) => 3,
    }
}

/// Compare two scalars.
pub fn compare_scalars(left: &ScalarMetadataValue, right: &ScalarMetadataValue) -> (order:
    Comparison)
    ensures
        order == scalar_order(left@, right@),
{
    match (left, right) {
        (ScalarMetadataValue::String(first), ScalarMetadataValue::String(second)) => compare_texts(
            first,
            second,
        ),
        (ScalarMetadataValue::Bool(first), ScalarMetadataValue::Bool(second)) => if *first
            == *second {
            Comparison::Equal
        } else if *second {
            Comparison::Less
        } else {
            Comparison::Greater
        },
        (
            ScalarMetadataValue::Number(first),
            ScalarMetadataValue::Number(second),
        ) => compare_numbers(first, second),
        _ => compare_ranks(kind_rank_of(left), kind_rank_of(right)),
    }
}

/// An entry of a table that is ordered by name.
pub trait Named {
    /// Model of the name.
    spec fn name_model(&self) -> Seq<char>;

    /// The name.
    fn name(&self) -> (text: &str)
        ensures
            text@ == self.name_model(),
    ;
}

/// The names of the entries of a table.
pub open spec fn names_of<T: Named>(entries: Seq<T>) -> Seq<Seq<char>> {
    Seq::new(entries.len(), |i: int| entries[i].name_model())
}

/// Whether names ascend strictly.
pub open spec fn names_ascend(names: Seq<Seq<char>>) -> bool {
    forall|i: int, j: int|
        0 <= i < j < names.len() ==> text_order(#[trigger] names[i], #[trigger] names[j])
            == Comparison::Less
}

/// Where a name stands among ascending names, or where it would have to be
/// inserted.
pub open spec fn slot(names: Seq<Seq<char>>, name: Seq<char>) -> Result<int, int>
    decreases names.len(),
{
    if names.len() == 0 {
        Err(0)
    } else {
        match text_order(name, names.last()) {
            Comparison::Greater => Err(names.len() as int),
            Comparison::Equal => Ok(names.len() - 1),
            Comparison::Less => slot(names.drop_last(), name),
        }
    }
}

proof fn lemma_slot(names: Seq<Seq<char>>, name: Seq<char>, position: int)
    requires
        0 <= position <= names.len(),
        forall|i: int|
            position <= i < names.len() ==> text_order(name, #[trigger] names[i])
                == Comparison::Less,
    ensures
        slot(names, name) == slot(names.take(position), name),
    decreases names.len(),
{
    if position < names.len() {
        assert(text_order(name, names[names.len() - 1]) == Comparison::Less);
        let shorter = names.drop_last();
        assert forall|i: int| position <= i < shorter.len() implies text_order(
            name,
            #[trigger] shorter[i],
        ) == Comparison::Less by {
            assert(shorter[i] == names[i]);
        }
        lemma_slot(shorter, name, position);
        assert(shorter.take(position) =~= names.take(position));
    } else {
        assert(names.take(position) =~= names);
    }
}

/// Find the place of a name in a table that is ordered by name.
fn find_slot<T: Named>(entries: &Vec<T>, name: &str) -> (place: Result<usize, usize>)
    ensures
        match (place, slot(names_of(entries@), name@)) {
            (Ok(index), Ok(at)) => index == at && index < entries@.len()
                && entries@[index as int].name_model() == name@,
            (Err(index), Err(at)) => index == at && index <= entries@.len(),
            _ => false,
        },
{
    let ghost names = names_of(entries@);
    let mut position: usize = entries.len();
    while position > 0
        invariant
            names == names_of(entries@),
            position <= entries@.len(),
            forall|i: int|
                position <= i < names.len() ==> text_order(name@, #[trigger] names[i])
                    == Comparison::Less,
        decreases position,
    {
        proof {
            lemma_slot(names, name@, position as int);
            let shorter = names.take(position as int);
            assert(shorter.last() == names[position - 1]);
            lemma_text_order(name@, names[position - 1]);
        }
        match compare_texts(name, entries[position - 1].name()) {
            Comparison::Greater => {
                return Err(position);
            },
            Comparison::Equal => {
                return Ok(position - 1);
            },
            Comparison::Less => {},
        }
        position = position - 1;
    }
    proof {
        lemma_slot(names, name@, 0);
    }
    Err(0)
}

/// A table that is ordered by name once an entry has been placed in it, in place of the one of
/// that name where there is one.
pub open spec fn placed<T: Named>(entries: Seq<T>, entry: T) -> Seq<T> {
    match slot(names_of(entries), entry.name_model()) {
        Ok(at) => entries.update(at, entry),
        Err(at) => entries.insert(at, entry),
    }
}

/// Entries ordered by name, each name once: of those of one name the last.
pub open spec fn by_name<T: Named>(entries: Seq<T>) -> Seq<T>
    decreases entries.len(),
{
    if entries.len() == 0 {
        Seq::empty()
    } else {
        placed(by_name(entries.drop_last()), entries.last())
    }
}

/// Place an entry in a table that is ordered by name.
pub(crate) fn place_by_name<T: Named>(entries: &mut Vec<T>, entry: T)
    ensures
        final(entries)@ == placed(old(entries)@, entry),
{
    match find_slot(entries, entry.name()) {
        Ok(index) => {
            entries.set(index, entry);
        },
        Err(index) => {
            entries.insert(index, entry);
        },
    }
}

/// How often a value occurs.
#[derive(Debug, PartialEq, Eq)]
pub struct ValueCount {
    /// The value in JSON notation.
    pub value: String,
    /// Number of occurrences.
    pub count: usize,
}

/// Statistics of one scalar field.
#[derive(Debug, PartialEq, Eq)]
pub struct ScalarFieldStats {
    /// Number of records that have the field.
    pub present_count: usize,
    /// Number of records in which the field is null.
    pub null_count: usize,
    /// Number of distinct scalar values.
    pub distinct_count: usize,
    /// Smallest scalar value other than null.
    pub min: Option<ScalarMetadataValue>,
    /// Largest scalar value other than null.
    pub max: Option<ScalarMetadataValue>,
    /// Occurrences of each scalar value, ordered by its notation.
    pub value_counts: Vec<ValueCount>,
}

/// Statistics of a scalar field under its name.
#[derive(Debug, PartialEq, Eq)]
pub struct ScalarField {
    /// Name of the field.
    pub name: String,
    /// Statistics of the field.
    pub stats: ScalarFieldStats,
}

/// Model of an occurrence count.
#[verifier::ext_equal]
pub struct CountModel {
    pub value: Seq<char>,
    pub count: nat,
}

/// Model of the statistics of a field.
#[verifier::ext_equal]
pub struct FieldStatsModel {
    pub present_count: nat,
    pub null_count: nat,
    pub distinct_count: nat,
    pub min: Option<ScalarModel>,
    pub max: Option<ScalarModel>,
    pub value_counts: Seq<CountModel>,
}

/// Model of the statistics of a field under its name.
#[verifier::ext_equal]
pub struct ScalarFieldModel {
    pub name: Seq<char>,
    pub stats: FieldStatsModel,
}

impl View for ValueCount {
    type V = CountModel;

    open spec fn view(&self) -> CountModel {
        CountModel { value: self.value@, count: self.count as nat }
    }
}

/// Models of occurrence counts.
pub open spec fn counts_model(counts: Seq<ValueCount>) -> Seq<CountModel> {
    Seq::new(counts.len(), |i: int| counts[i]@)
}

impl View for ScalarFieldStats {
    type V = FieldStatsModel;

    open spec fn view(&self) -> FieldStatsModel {
        FieldStatsModel {
            present_count: self.present_count as nat,
            null_count: self.null_count as nat,
            distinct_count: self.distinct_count as nat,
            min: optional_scalar(self.min),
            max: optional_scalar(self.max),
            value_counts: counts_model(self.value_counts@),
        }
    }
}

impl View for ScalarField {
    type V = ScalarFieldModel;

    open spec fn view(&self) -> ScalarFieldModel {
        ScalarFieldModel { name: self.name@, stats: self.stats@ }
    }
}

/// Models of the statistics of fields.
pub open spec fn scalar_fields_model(fields: Seq<ScalarField>) -> Seq<ScalarFieldModel> {
    Seq::new(fields.len(), |i: int| fields[i]@)
}

impl Named for ValueCount {
    open spec fn name_model(&self) -> Seq<char> {
        self.value@
    }

    fn name(&self) -> (text: &str) {
        self.value.as_str()
    }
}

impl Named for ScalarField {
    open spec fn name_model(&self) -> Seq<char> {
        self.name@
    }

    fn name(&self) -> (text: &str) {
        self.name.as_str()
    }
}

/// The values that are counted.
pub open spec fn counted_values(counts: Seq<CountModel>) -> Seq<Seq<char>> {
    Seq::new(counts.len(), |i: int| counts[i].value)
}

/// The names of fields with statistics.
pub open spec fn field_names(fields: Seq<ScalarFieldModel>) -> Seq<Seq<char>> {
    Seq::new(fields.len(), |i: int| fields[i].name)
}

/// Occurrence counts once a value has occurred again.
pub open spec fn counted(counts: Seq<CountModel>, value: Seq<char>) -> Seq<CountModel> {
    match slot(counted_values(counts), value) {
        Ok(at) => counts.update(at, CountModel { count: counts[at].count + 1, ..counts[at] }),
        Err(at) => counts.insert(at, CountModel { value, count: 1 }),
    }
}

/// Statistics of a field that has not been seen.
pub open spec fn unseen() -> FieldStatsModel {
    FieldStatsModel {
        present_count: 0,
        null_count: 0,
        distinct_count: 0,
        min: None,
        max: None,
        value_counts: Seq::empty(),
    }
}

/// The smaller of two scalars, the first one where they compare as equal.
pub open spec fn smaller_scalar(current: Option<ScalarModel>, scalar: ScalarModel) -> ScalarModel {
    match current {
        Some(held) => if scalar_order(scalar, held) == Comparison::Less {
            scalar
        } else {
            held
        },
        None => scalar,
    }
}

/// The larger of two scalars, the first one where they compare as equal.
pub open spec fn larger_scalar(current: Option<ScalarModel>, scalar: ScalarModel) -> ScalarModel {
    match current {
        Some(held) => if scalar_order(scalar, held) == Comparison::Greater {
            scalar
        } else {
            held
        },
        None => scalar,
    }
}

/// Statistics of a field once a record has had it. A value that is no scalar
/// counts as present and as nothing else.
pub open spec fn observed(stats: FieldStatsModel, field: FieldModel) -> FieldStatsModel {
    let present = FieldStatsModel { present_count: stats.present_count + 1, ..stats };
    match scalar_of_json(field.value) {
        None => present,
        Some(scalar) => {
            let value_counts = counted(stats.value_counts, field.notation);
            let is_null = scalar == ScalarModel::Null;
            FieldStatsModel {
                null_count: if is_null {
                    stats.null_count + 1
                } else {
                    stats.null_count
                },
                distinct_count: value_counts.len(),
                min: if is_null {
                    stats.min
                } else {
                    Some(smaller_scalar(stats.min, scalar))
                },
                max: if is_null {
                    stats.max
                } else {
                    Some(larger_scalar(stats.max, scalar))
                },
                value_counts,
                ..present
            }
        },
    }
}

/// Statistics of all fields once a record has had one of them.
pub open spec fn with_field(fields: Seq<ScalarFieldModel>, field: FieldModel) -> Seq<
    ScalarFieldModel,
> {
    match slot(field_names(fields), field.name) {
        Ok(at) => fields.update(
            at,
            ScalarFieldModel { stats: observed(fields[at].stats, field), ..fields[at] },
        ),
        Err(at) => fields.insert(
            at,
            ScalarFieldModel { name: field.name, stats: observed(unseen(), field) },
        ),
    }
}

/// Statistics of all fields once a record has had the first `count` of some fields.
pub open spec fn with_fields(
    fields: Seq<ScalarFieldModel>,
    document: Seq<FieldModel>,
    count: nat,
) -> Seq<ScalarFieldModel>
    decreases count,
{
    if count == 0 {
        fields
    } else {
        with_field(with_fields(fields, document, (count - 1) as nat), document[count - 1])
    }
}

/// Whether no count exceeds a limit.
pub open spec fn stats_within(stats: FieldStatsModel, limit: nat) -> bool {
    &&& stats.present_count <= limit
    &&& stats.null_count <= limit
    &&& forall|i: int|
        0 <= i < stats.value_counts.len() ==> (#[trigger] stats.value_counts[i]).count <= limit
}

/// Whether no count of any field exceeds a limit.
pub open spec fn fields_within(fields: Seq<ScalarFieldModel>, limit: nat) -> bool {
    forall|i: int| 0 <= i < fields.len() ==> stats_within((#[trigger] fields[i]).stats, limit)
}

fn count_value(counts: &mut Vec<ValueCount>, value: &str)
    requires
        forall|i: int|
            0 <= i < old(counts)@.len() ==> (#[trigger] old(counts)@[i]).count < usize::MAX,
    ensures
        counts_model(final(counts)@) == counted(counts_model(old(counts)@), value@),
{
    let ghost before = counts_model(counts@);
    assert(names_of(counts@) =~= counted_values(before));
    match find_slot(counts, value) {
        Ok(index) => {
            let count: usize = counts[index].count;
            counts[index].count = count + 1;
            assert(counts_model(counts@) =~= counted(before, value@));
        },
        Err(index) => {
            counts.insert(index, ValueCount { value: value.to_owned(), count: 1 });
            assert(counts_model(counts@) =~= counted(before, value@));
        },
    }
}

fn observe(stats: &mut ScalarFieldStats, field: &JsonField)
    requires
        stats_within(old(stats)@, (usize::MAX - 1) as nat),
    ensures
        final(stats)@ == observed(old(stats)@, field@),
{
    let ghost before = stats@;
    stats.present_count = stats.present_count + 1;
    let scalar = match ScalarMetadataValue::from_json(&field.value) {
        Some(scalar) => scalar,
        None => {
            return;
        },
    };
    let is_null = match &scalar {
        ScalarMetadataValue::Null => true,
        _ => false,
    };
    if is_null {
        stats.null_count = stats.null_count + 1;
    }
    proof {
        assert forall|i: int| 0 <= i < stats.value_counts@.len() implies (
        #[trigger] stats.value_counts@[i]).count < usize::MAX by {
            assert(before.value_counts[i] == stats.value_counts@[i]@);
        }
    }
    count_value(&mut stats.value_counts, &field.notation);
    stats.distinct_count = stats.value_counts.len();
    if !is_null {
        let lower = match &stats.min {
            None => true,
            Some(current) => match compare_scalars(&scalar, current) {
                Comparison::Less => true,
                _ => false,
            },
        };
        if lower {
            stats.min = Some(scalar.clone());
        }
        let higher = match &stats.max {
            None => true,
            Some(current) => match compare_scalars(&scalar, current) {
                Comparison::Greater => true,
                _ => false,
            },
        };
        if higher {
            stats.max = Some(scalar);
        }
    }
    assert(stats@ == observed(before, field@));
}

proof fn lemma_slot_range(names: Seq<Seq<char>>, name: Seq<char>)
    ensures
        match slot(names, name) {
            Ok(at) => 0 <= at < names.len(),
            Err(at) => 0 <= at <= names.len(),
        },
    decreases names.len(),
{
    if names.len() > 0 {
        lemma_slot_range(names.drop_last(), name);
    }
}

proof fn lemma_observed_within(stats: FieldStatsModel, field: FieldModel, limit: nat)
    requires
        stats_within(stats, limit),
    ensures
        stats_within(observed(stats, field), limit + 1),
{
    lemma_slot_range(counted_values(stats.value_counts), field.notation);
    let after = observed(stats, field);
    assert forall|i: int| 0 <= i < after.value_counts.len() implies (
    #[trigger] after.value_counts[i]).count <= limit + 1 by {
        if scalar_of_json(field.value) is None {
            assert(after.value_counts[i] == stats.value_counts[i]);
        } else {
            match slot(counted_values(stats.value_counts), field.notation) {
                Ok(at) => {
                    assert(stats.value_counts[i].count <= limit);
                },
                Err(at) => {
                    if i < at {
                        assert(after.value_counts[i] == stats.value_counts[i]);
                    } else if i > at {
                        assert(after.value_counts[i] == stats.value_counts[i - 1]);
                    }
                },
            }
        }
    }
}

proof fn lemma_with_field_within(fields: Seq<ScalarFieldModel>, field: FieldModel, limit: nat)
    requires
        fields_within(fields, limit),
    ensures
        fields_within(with_field(fields, field), limit + 1),
{
    lemma_slot_range(field_names(fields), field.name);
    let after = with_field(fields, field);
    assert forall|i: int| 0 <= i < after.len() implies stats_within(
        (#[trigger] after[i]).stats,
        limit + 1,
    ) by {
        match slot(field_names(fields), field.name) {
            Ok(at) => {
                assert(stats_within(fields[i].stats, limit));
                if i == at {
                    lemma_observed_within(fields[at].stats, field, limit);
                }
            },
            Err(at) => {
                if i < at {
                    assert(after[i] == fields[i]);
                } else if i > at {
                    assert(after[i] == fields[i - 1]);
                } else {
                    lemma_observed_within(unseen(), field, 0);
                }
            },
        }
    }
}

/// Reading one more record raises no count by more than the number of its fields.
pub proof fn lemma_with_fields_within(
    fields: Seq<ScalarFieldModel>,
    document: Seq<FieldModel>,
    count: nat,
    limit: nat,
)
    requires
        fields_within(fields, limit),
    ensures
        fields_within(with_fields(fields, document, count), limit + count),
    decreases count,
{
    if count > 0 {
        lemma_with_fields_within(fields, document, (count - 1) as nat, limit);
        lemma_with_field_within(
            with_fields(fields, document, (count - 1) as nat),
            document[count - 1],
            (limit + count - 1) as nat,
        );
    }
}

fn unseen_stats() -> (stats: ScalarFieldStats)
    ensures
        stats@ == unseen(),
{
    let stats = ScalarFieldStats {
        present_count: 0,
        null_count: 0,
        distinct_count: 0,
        min: None,
        max: None,
        value_counts: Vec::new(),
    };
    assert(stats@.value_counts =~= Seq::empty());
    stats
}

/// Record the top-level fields of one document. No count exceeds `limit` before.
pub(crate) fn update_scalar_field_stats(
    scalar_fields: &mut Vec<ScalarField>,
    document: &Vec<JsonField>,
    Ghost(limit): Ghost<nat>,
)
    requires
        fields_within(scalar_fields_model(old(scalar_fields)@), limit),
        limit + document@.len() <= usize::MAX,
    ensures
        scalar_fields_model(final(scalar_fields)@) == with_fields(
            scalar_fields_model(old(scalar_fields)@),
            crate::json::fields_model(document@),
            document@.len(),
        ),
{
    let ghost start = scalar_fields_model(scalar_fields@);
    let ghost fields = crate::json::fields_model(document@);
    let mut index: usize = 0;
    while index < document.len()
        invariant
            start == scalar_fields_model(old(scalar_fields)@),
            fields == crate::json::fields_model(document@),
            fields_within(start, limit),
            limit + document@.len() <= usize::MAX,
            index <= document@.len(),
            scalar_fields_model(scalar_fields@) == with_fields(start, fields, index as nat),
        decreases document@.len() - index,
    {
        let field = &document[index];
        let ghost before = scalar_fields_model(scalar_fields@);
        proof {
            lemma_with_fields_within(start, fields, index as nat, limit);
            assert(names_of(scalar_fields@) =~= field_names(before));
            assert(fields[index as int] == field@);
        }
        match find_slot(scalar_fields, &field.name) {
            Ok(at) => {
                assert(stats_within(before[at as int].stats, limit + index as nat));
                observe(&mut scalar_fields[at].stats, field);
                assert(scalar_fields_model(scalar_fields@) =~= with_field(before, field@));
            },
            Err(at) => {
                let mut stats = unseen_stats();
                observe(&mut stats, field);
                scalar_fields.insert(at, ScalarField { name: field.name.clone(), stats });
                assert(scalar_fields_model(scalar_fields@) =~= with_field(before, field@));
            },
        }
        index = index + 1;
    }
}

pub proof fn lemma_slot_splits(names: Seq<Seq<char>>, name: Seq<char>)
    requires
        names_ascend(names),
    ensures
        match slot(names, name) {
            Ok(at) => 0 <= at < names.len() && names[at] == name,
            Err(at) => {
                &&& 0 <= at <= names.len()
                &&& forall|i: int|
                    0 <= i < at ==> text_order(#[trigger] names[i], name) == Comparison::Less
                &&& forall|i: int|
                    at <= i < names.len() ==> text_order(name, #[trigger] names[i])
                        == Comparison::Less
            },
        },
    decreases names.len(),
{
    if names.len() > 0 {
        let last = names.last();
        let shorter = names.drop_last();
        lemma_text_order(name, last);
        lemma_text_order(last, name);
        assert forall|i: int, j: int| 0 <= i < j < shorter.len() implies text_order(
            #[trigger] shorter[i],
            #[trigger] shorter[j],
        ) == Comparison::Less by {
            assert(text_order(names[i], names[j]) == Comparison::Less);
        }
        lemma_slot_splits(shorter, name);
        match text_order(name, last) {
            Comparison::Greater => {
                assert forall|i: int| 0 <= i < names.len() implies text_order(
                    #[trigger] names[i],
                    name,
                ) == Comparison::Less by {
                    if i < names.len() - 1 {
                        assert(text_order(names[i], names[names.len() - 1]) == Comparison::Less);
                        lemma_text_order_transitive(names[i], last, name);
                    }
                }
            },
            Comparison::Equal => {},
            Comparison::Less => {
                match slot(names, name) {
                    Ok(at) => {
                        assert(shorter[at] == names[at]);
                    },
                    Err(at) => {
                        assert forall|i: int| 0 <= i < at implies text_order(
                            #[trigger] names[i],
                            name,
                        ) == Comparison::Less by {
                            assert(shorter[i] == names[i]);
                        }
                        assert forall|i: int| at <= i < names.len() implies text_order(
                            name,
                            #[trigger] names[i],
                        ) == Comparison::Less by {
                            if i < shorter.len() {
                                assert(shorter[i] == names[i]);
                            }
                        }
                    },
                }
            },
        }
    }
}

pub proof fn lemma_slot_of_member(names: Seq<Seq<char>>, at: int)
    requires
        names_ascend(names),
        0 <= at < names.len(),
    ensures
        slot(names, names[at]) == Ok::<int, int>(at),
    decreases names.len(),
{
    lemma_text_order(names[at], names.last());
    if at < names.len() - 1 {
        let shorter = names.drop_last();
        assert(text_order(names[at], names[names.len() - 1]) == Comparison::Less);
        assert forall|i: int, j: int| 0 <= i < j < shorter.len() implies text_order(
            #[trigger] shorter[i],
            #[trigger] shorter[j],
        ) == Comparison::Less by {
            assert(text_order(names[i], names[j]) == Comparison::Less);
        }
        lemma_slot_of_member(shorter, at);
        assert(shorter[at] == names[at]);
    }
}

pub proof fn lemma_insert_ascends(names: Seq<Seq<char>>, name: Seq<char>, at: int)
    requires
        names_ascend(names),
        slot(names, name) == Err::<int, int>(at),
    ensures
        0 <= at <= names.len(),
        names_ascend(names.insert(at, name)),
{
    lemma_slot_splits(names, name);
    let after = names.insert(at, name);
    assert forall|i: int, j: int| 0 <= i < j < after.len() implies text_order(
        #[trigger] after[i],
        #[trigger] after[j],
    ) == Comparison::Less by {
        if j < at {
            assert(after[i] == names[i] && after[j] == names[j]);
        } else if j == at {
            assert(after[i] == names[i]);
        } else if i < at {
            assert(after[i] == names[i] && after[j] == names[j - 1]);
        } else if i == at {
            assert(after[j] == names[j - 1]);
        } else {
            assert(after[i] == names[i - 1] && after[j] == names[j - 1]);
        }
    }
}

/// Placing an entry keeps a table ordered, and adds no name but its own.
proof fn lemma_placed<T: Named>(entries: Seq<T>, entry: T)
    requires
        names_ascend(names_of(entries)),
    ensures
        names_ascend(names_of(placed(entries, entry))),
        placed(entries, entry).contains(entry),
        forall|i: int|
            0 <= i < placed(entries, entry).len() ==> #[trigger] placed(entries, entry)[i] == entry
                || placed(entries, entry)[i].name_model() != entry.name_model()
                && entries.contains(placed(entries, entry)[i]),
        forall|i: int|
            0 <= i < entries.len() ==> (#[trigger] entries[i]).name_model() == entry.name_model()
                || placed(entries, entry).contains(entries[i]),
{
    let names = names_of(entries);
    let after = placed(entries, entry);
    lemma_slot_splits(names, entry.name_model());
    match slot(names, entry.name_model()) {
        Ok(at) => {
            assert(names_of(after) =~= names);
            assert(after[at] == entry);
            assert forall|i: int| 0 <= i < after.len() && i != at implies (
            #[trigger] after[i]).name_model() != entry.name_model() && entries.contains(
                after[i],
            ) by {
                assert(entries[i] == after[i]);
                lemma_slot_of_member(names, i);
            }
            assert forall|i: int| 0 <= i < entries.len() && i != at implies after.contains(
                #[trigger] entries[i],
            ) by {
                assert(after[i] == entries[i]);
            }
            assert(names[at] == entry.name_model());
        },
        Err(at) => {
            lemma_insert_ascends(names, entry.name_model(), at);
            assert(names_of(after) =~= names.insert(at, entry.name_model()));
            assert(after[at] == entry);
            assert forall|i: int| 0 <= i < after.len() && i != at implies (
            #[trigger] after[i]).name_model() != entry.name_model() && entries.contains(
                after[i],
            ) by {
                let origin = if i < at {
                    i
                } else {
                    i - 1
                };
                assert(entries[origin] == after[i]);
                assert(names[origin] == after[i].name_model());
                lemma_slot_of_member(names, origin);
            }
            assert forall|i: int| 0 <= i < entries.len() implies after.contains(
                #[trigger] entries[i],
            ) by {
                let moved = if i < at {
                    i
                } else {
                    i + 1
                };
                assert(after[moved] == entries[i]);
            }
        },
    }
}

/// Whether an entry is the last one of its name.
pub open spec fn is_last_named<T: Named>(entries: Seq<T>, at: int) -> bool {
    forall|later: int|
        at < later < entries.len() ==> (#[trigger] entries[later]).name_model()
            != entries[at].name_model()
}

/// Ordering entries by name gives a table in which names ascend, and which holds exactly the
/// entries that are the last ones of their names.
pub proof fn law_by_name<T: Named>(entries: Seq<T>)
    ensures
        names_ascend(names_of(by_name(entries))),
        forall|i: int|
            0 <= i < by_name(entries).len() ==> exists|at: int|
                0 <= at < entries.len() && #[trigger] entries[at] == #[trigger] by_name(entries)[i]
                    && is_last_named(entries, at),
        forall|at: int|
            0 <= at < entries.len() && is_last_named(entries, at) ==> by_name(entries).contains(
                #[trigger] entries[at],
            ),
    decreases entries.len(),
{
    if entries.len() > 0 {
        let shorter = entries.drop_last();
        let entry = entries.last();
        let before = by_name(shorter);
        let after = by_name(entries);
        law_by_name(shorter);
        lemma_placed(before, entry);
        assert forall|i: int| 0 <= i < after.len() implies exists|at: int|
            0 <= at < entries.len() && #[trigger] entries[at] == #[trigger] after[i]
                && is_last_named(entries, at) by {
            if after[i] == entry {
                assert(entries[entries.len() - 1] == after[i]);
                assert(is_last_named(entries, entries.len() - 1));
            } else {
                assert(before.contains(after[i]));
                let j = choose|j: int| 0 <= j < before.len() && before[j] == after[i];
                let at = choose|at: int|
                    0 <= at < shorter.len() && #[trigger] shorter[at] == before[j]
                        && is_last_named(shorter, at);
                assert(entries[at] == after[i]);
                assert forall|later: int| at < later < entries.len() implies (
                #[trigger] entries[later]).name_model() != entries[at].name_model() by {
                    if later < shorter.len() {
                        assert(shorter[later] == entries[later]);
                    }
                }
                assert(is_last_named(entries, at));
            }
        }
        assert forall|at: int|
            0 <= at < entries.len() && is_last_named(entries, at) implies after.contains(
            #[trigger] entries[at],
        ) by {
            if at < shorter.len() {
                assert(shorter[at] == entries[at]);
                assert forall|later: int| at < later < shorter.len() implies (
                #[trigger] shorter[later]).name_model() != shorter[at].name_model() by {
                    assert(entries[later] == shorter[later]);
                }
                assert(is_last_named(shorter, at));
                let j = choose|j: int| 0 <= j < before.len() && before[j] == entries[at];
                assert(entries[entries.len() - 1].name_model() != entries[at].name_model());
                assert(after.contains(before[j]));
            }
        }
    }
}

/// Entries that are ordered by name, each name once, are left alone by ordering them.
pub proof fn law_ordered_entries_stay<T: Named>(entries: Seq<T>)
    requires
        names_ascend(names_of(entries)),
    ensures
        by_name(entries) == entries,
    decreases entries.len(),
{
    if entries.len() > 0 {
        let shorter = entries.drop_last();
        let names = names_of(entries);
        let shorter_names = names_of(shorter);
        assert forall|i: int, j: int| 0 <= i < j < shorter_names.len() implies text_order(
            #[trigger] shorter_names[i],
            #[trigger] shorter_names[j],
        ) == Comparison::Less by {
            assert(shorter_names[i] == names[i] && shorter_names[j] == names[j]);
        }
        law_ordered_entries_stay(shorter);
        if shorter.len() > 0 {
            lemma_text_order(names[names.len() - 2], names[names.len() - 1]);
            assert(text_order(names[names.len() - 2], names[names.len() - 1])
                == Comparison::Less);
            assert(shorter_names.last() == names[names.len() - 2]);
            assert(text_order(entries.last().name_model(), shorter_names.last())
                == Comparison::Greater) by {
                lemma_text_order(shorter_names.last(), entries.last().name_model());
            }
        }
        assert(slot(shorter_names, entries.last().name_model()) == Err::<int, int>(
            shorter.len() as int,
        ));
        assert(shorter.insert(shorter.len() as int, entries.last()) =~= entries);
    } else {
        assert(entries =~= Seq::empty());
    }
}

/// How often a value has been counted.
pub open spec fn occurrences(counts: Seq<CountModel>, value: Seq<char>) -> nat {
    match slot(counted_values(counts), value) {
        Ok(at) => counts[at].count,
        Err(_) => 0,
    }
}

/// Counting a value raises its own count by one, leaves every other count alone,
/// and keeps the table ordered with each value in it once.
pub proof fn law_counting(counts: Seq<CountModel>, value: Seq<char>, other: Seq<char>)
    requires
        names_ascend(counted_values(counts)),
    ensures
        names_ascend(counted_values(counted(counts, value))),
        occurrences(counted(counts, value), value) == occurrences(counts, value) + 1,
        other != value ==> occurrences(counted(counts, value), other) == occurrences(
            counts,
            other,
        ),
{
    let names = counted_values(counts);
    let after = counted(counts, value);
    let after_names = counted_values(after);
    lemma_slot_splits(names, value);
    match slot(names, value) {
        Ok(at) => {
            assert(after_names =~= names);
            lemma_slot_splits(names, other);
        },
        Err(at) => {
            lemma_insert_ascends(names, value, at);
            assert(after_names =~= names.insert(at, value));
            lemma_slot_of_member(after_names, at);
            lemma_slot_splits(names, other);
            lemma_slot_splits(after_names, other);
            if other != value {
                match slot(names, other) {
                    Ok(there) => {
                        let moved = if there < at {
                            there
                        } else {
                            there + 1
                        };
                        assert(after_names[moved] == other);
                        lemma_slot_of_member(after_names, moved);
                        assert(after[moved] == counts[there]);
                    },
                    Err(_) => {
                        match slot(after_names, other) {
                            Ok(there) => {
                                let origin = if there < at {
                                    there
                                } else {
                                    there - 1
                                };
                                assert(there != at);
                                assert(names[origin] == other);
                                lemma_slot_of_member(names, origin);
                            },
                            Err(_) => {},
                        }
                    },
                }
            }
        },
    }
}

/// Recording a field keeps the fields ordered by name, each of them once.
pub proof fn law_fields_stay_ordered(fields: Seq<ScalarFieldModel>, field: FieldModel)
    requires
        names_ascend(field_names(fields)),
    ensures
        names_ascend(field_names(with_field(fields, field))),
{
    let names = field_names(fields);
    lemma_slot_splits(names, field.name);
    match slot(names, field.name) {
        Ok(at) => {
            assert(field_names(with_field(fields, field)) =~= names);
        },
        Err(at) => {
            lemma_insert_ascends(names, field.name, at);
            assert(field_names(with_field(fields, field)) =~= names.insert(at, field.name));
        },
    }
}

/// Numbers compare as the numbers that they are: two signed integers as integers, else two unsigned
/// ones as integers, else as the exact values of their doubles. What is no number at all compares as
/// equal to everything.
pub proof fn law_numbers_compare_as_numbers(left: JsonNumber, right: JsonNumber)
    ensures
        left.signed is Some && right.signed is Some ==> {
            &&& number_order(left, right) == Comparison::Less <==> left.signed->0 < right.signed->0
            &&& number_order(left, right) == Comparison::Greater <==> left.signed->0
                > right.signed->0
        },
        !(left.signed is Some && right.signed is Some) && left.unsigned is Some
            && right.unsigned is Some ==> {
            &&& number_order(left, right) == Comparison::Less <==> left.unsigned->0
                < right.unsigned->0
            &&& number_order(left, right) == Comparison::Greater <==> left.unsigned->0
                > right.unsigned->0
        },
        !(left.signed is Some && right.signed is Some) && !(left.unsigned is Some
            && right.unsigned is Some) ==> (left.double_bits matches Some(first) ==> (
        right.double_bits matches Some(second) ==> {
            &&& first % 0x8000_0000_0000_0000 <= 0x7ff0_0000_0000_0000 && second
                % 0x8000_0000_0000_0000 <= 0x7ff0_0000_0000_0000 ==> {
                &&& number_order(left, right) == Comparison::Less <==> double_units(first)
                    < double_units(second)
                &&& number_order(left, right) == Comparison::Greater <==> double_units(first)
                    > double_units(second)
            }
            &&& first % 0x8000_0000_0000_0000 > 0x7ff0_0000_0000_0000 || second
                % 0x8000_0000_0000_0000 > 0x7ff0_0000_0000_0000 ==> number_order(left, right)
                == Comparison::Equal
        })),
{
    if left.double_bits is Some && right.double_bits is Some {
        law_double_patterns_order(left.double_bits->0, right.double_bits->0);
        law_double_patterns_order(right.double_bits->0, left.double_bits->0);
    }
}

/// Of two doubles that are not negative the smaller one has the smaller pattern, of two negative
/// ones the larger pattern, and a negative one is smaller than one that is not, but for the zeros.
pub proof fn law_doubles_compare_by_pattern(first: u64, second: u64)
    requires
        first % 0x8000_0000_0000_0000 <= 0x7ff0_0000_0000_0000,
        second % 0x8000_0000_0000_0000 <= 0x7ff0_0000_0000_0000,
    ensures
        ({
            let left = JsonNumber { signed: None, unsigned: None, double_bits: Some(first) };
            let right = JsonNumber { signed: None, unsigned: None, double_bits: Some(second) };
            let order = number_order(left, right);
            &&& first < 0x8000_0000_0000_0000 && second < 0x8000_0000_0000_0000 ==> (order
                == Comparison::Less <==> first < second) && (order == Comparison::Greater <==> first
                > second)
            &&& first >= 0x8000_0000_0000_0000 && second >= 0x8000_0000_0000_0000 ==> (order
                == Comparison::Less <==> first > second) && (order == Comparison::Greater <==> first
                < second)
            &&& first >= 0x8000_0000_0000_0000 && second < 0x8000_0000_0000_0000 ==> order == (
            if first == 0x8000_0000_0000_0000 && second == 0 {
                Comparison::Equal
            } else {
                Comparison::Less
            })
            &&& first < 0x8000_0000_0000_0000 && second >= 0x8000_0000_0000_0000 ==> order == (
            if second == 0x8000_0000_0000_0000 && first == 0 {
                Comparison::Equal
            } else {
                Comparison::Greater
            })
        }),
{
}

/// Scalars of different kinds compare by kind: null comes first, then truth values, then numbers,
/// then texts. False comes before true.
pub proof fn law_kinds_compare(truth: bool, number: JsonNumber, text: Seq<char>)
    ensures
        scalar_order(ScalarModel::Null, ScalarModel::Null) == Comparison::Equal,
        scalar_order(ScalarModel::Null, ScalarModel::Bool(truth)) == Comparison::Less,
        scalar_order(ScalarModel::Null, ScalarModel::Number(number)) == Comparison::Less,
        scalar_order(ScalarModel::Null, ScalarModel::String(text)) == Comparison::Less,
        scalar_order(ScalarModel::Bool(truth), ScalarModel::Null) == Comparison::Greater,
        scalar_order(ScalarModel::Bool(truth), ScalarModel::Number(number)) == Comparison::Less,
        scalar_order(ScalarModel::Bool(truth), ScalarModel::String(text)) == Comparison::Less,
        scalar_order(ScalarModel::Number(number), ScalarModel::Null) == Comparison::Greater,
        scalar_order(ScalarModel::Number(number), ScalarModel::Bool(truth)) == Comparison::Greater,
        scalar_order(ScalarModel::Number(number), ScalarModel::String(text)) == Comparison::Less,
        scalar_order(ScalarModel::String(text), ScalarModel::Null) == Comparison::Greater,
        scalar_order(ScalarModel::String(text), ScalarModel::Bool(truth)) == Comparison::Greater,
        scalar_order(ScalarModel::String(text), ScalarModel::Number(number)) == Comparison::Greater,
        scalar_order(ScalarModel::Bool(false), ScalarModel::Bool(true)) == Comparison::Less,
        scalar_order(ScalarModel::Bool(true), ScalarModel::Bool(false)) == Comparison::Greater,
        scalar_order(ScalarModel::Bool(truth), ScalarModel::Bool(truth)) == Comparison::Equal,
{
}

/// Scalars of one kind compare as their values do: texts as texts, numbers as numbers.
pub proof fn law_values_of_a_kind_compare(
    first: Seq<char>,
    second: Seq<char>,
    left: JsonNumber,
    right: JsonNumber,
)
    ensures
        scalar_order(ScalarModel::String(first), ScalarModel::String(second)) == text_order(
            first,
            second,
        ),
        scalar_order(ScalarModel::Number(left), ScalarModel::Number(right)) == number_order(
            left,
            right,
        ),
{
}

/// The null, a truth value, a number and a text of a JSON document are the scalars of the same
/// kind and value; an array and an object are no scalars.
pub proof fn law_scalars_of_json(truth: bool, number: JsonNumber, text: Seq<char>)
    ensures
        scalar_of_json(JsonModel::Null) == Some(ScalarModel::Null),
        scalar_of_json(JsonModel::Bool(truth)) == Some(ScalarModel::Bool(truth)),
        scalar_of_json(JsonModel::Number(number)) == Some(ScalarModel::Number(number)),
        scalar_of_json(JsonModel::Text(text)) == Some(ScalarModel::String(text)),
        scalar_of_json(JsonModel::Array) is None,
        scalar_of_json(JsonModel::Object) is None,
{
}

/// Of two values the smaller and the larger one are found, and the earlier one where neither is.
pub proof fn law_extremes_go_by_the_order(held: ScalarModel, scalar: ScalarModel)
    ensures
        smaller_scalar(None, scalar) == scalar,
        larger_scalar(None, scalar) == scalar,
        scalar_order(scalar, held) == Comparison::Less ==> smaller_scalar(Some(held), scalar)
            == scalar && larger_scalar(Some(held), scalar) == held,
        scalar_order(scalar, held) == Comparison::Greater ==> smaller_scalar(Some(held), scalar)
            == held && larger_scalar(Some(held), scalar) == scalar,
        scalar_order(scalar, held) == Comparison::Equal ==> smaller_scalar(Some(held), scalar)
            == held && larger_scalar(Some(held), scalar) == held,
{
}

} // verus!
