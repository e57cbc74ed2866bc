//! What the summaries of scalar fields say of the documents that they were made from.

use crate::float::double_units;
use crate::index::flat::{law_summaries_are_ordered, lemma_fields_ordered, summarized};
use crate::json::{distinct_names, FieldModel, JsonModel, JsonNumber};
use crate::scalar::{
    counted, counted_values, field_names, law_counting, law_numbers_compare_as_numbers,
    lemma_insert_ascends, lemma_slot_of_member, lemma_slot_splits, names_ascend, observed,
    occurrences, scalar_of_json, scalar_order, slot, unseen, with_field, with_fields, CountModel,
    FieldStatsModel, ScalarFieldModel, ScalarModel,
};
use crate::text::{lemma_text_order, lemma_text_order_transitive, text_order, Comparison};
use vstd::prelude::*;

verus! {

/// The field of a name among the first `count` of a document.
pub open spec fn field_named(document: Seq<FieldModel>, count: nat, name: Seq<char>) -> Option<
    FieldModel,
>
    decreases count,
{
    if count == 0 {
        None
    } else if document[count - 1].name == name {
        Some(document[count - 1])
    } else {
        field_named(document, (count - 1) as nat, name)
    }
}

/// The fields of a name in the first `count` documents: one for each document that has it,
/// in turn.
pub open spec fn history(documents: Seq<Seq<FieldModel>>, count: nat, name: Seq<char>) -> Seq<
    FieldModel,
>
    decreases count,
{
    if count == 0 {
        Seq::empty()
    } else {
        let document = documents[count - 1];
        let earlier = history(documents, (count - 1) as nat, name);
        match field_named(document, document.len(), name) {
            Some(field) => earlier.push(field),
            None => earlier,
        }
    }
}

/// How many fields meet a condition.
pub open spec fn tally(fields: Seq<FieldModel>, test: spec_fn(FieldModel) -> bool) -> nat
    decreases fields.len(),
{
    if fields.len() == 0 {
        0
    } else {
        tally(fields.drop_last(), test) + if test(fields.last()) {
            1nat
        } else {
            0nat
        }
    }
}

/// Whether a field is null.
pub open spec fn is_null_field() -> spec_fn(FieldModel) -> bool {
    |field: FieldModel| field.value == JsonModel::Null
}

/// Whether a field is a scalar, null included.
pub open spec fn is_scalar_field() -> spec_fn(FieldModel) -> bool {
    |field: FieldModel| scalar_of_json(field.value) is Some
}

/// Whether a field is a scalar in a notation.
pub open spec fn is_written(notation: Seq<char>) -> spec_fn(FieldModel) -> bool {
    |field: FieldModel| scalar_of_json(field.value) is Some && field.notation == notation
}

/// Whether one of some fields is a scalar other than null, and this one.
pub open spec fn holds_scalar(fields: Seq<FieldModel>, scalar: ScalarModel) -> bool {
    scalar != ScalarModel::Null && exists|i: int|
        0 <= i < fields.len() && scalar_of_json((#[trigger] fields[i]).value) == Some(scalar)
}

/// Whether every number is a signed integer.
pub open spec fn numbers_are_signed(fields: Seq<FieldModel>) -> bool {
    forall|i: int|
        0 <= i < fields.len() ==> ((#[trigger] fields[i]).value matches JsonModel::Number(number)
            ==> number.signed is Some)
}

/// Sum of occurrence counts.
pub open spec fn total(counts: Seq<CountModel>) -> nat
    decreases counts.len(),
{
    if counts.len() == 0 {
        0
    } else {
        total(counts.drop_last()) + counts.last().count
    }
}

/// Whether statistics are those of a field that has occurred as given: how often it was
/// there and was null, how often each scalar in it was, and the least and the greatest
/// scalar other than null.
pub open spec fn summarizes(stats: FieldStatsModel, fields: Seq<FieldModel>) -> bool {
    &&& stats.present_count == fields.len()
    &&& stats.null_count == tally(fields, is_null_field())
    &&& total(stats.value_counts) == tally(fields, is_scalar_field())
    &&& names_ascend(counted_values(stats.value_counts))
    &&& forall|notation: Seq<char>| #[trigger]
        occurrences(stats.value_counts, notation) == tally(fields, is_written(notation))
    &&& stats.distinct_count == stats.value_counts.len()
    &&& stats.min is None <==> stats.max is None
    &&& stats.min is None <==> forall|scalar: ScalarModel| !#[trigger] holds_scalar(fields, scalar)
    &&& numbers_are_signed(fields) ==> {
        &&& stats.min matches Some(least) ==> holds_scalar(fields, least) && forall|
            scalar: ScalarModel,
        | #[trigger]
            holds_scalar(fields, scalar) ==> scalar_order(scalar, least) != Comparison::Less
        &&& stats.max matches Some(greatest) ==> holds_scalar(fields, greatest) && forall|
            scalar: ScalarModel,
        | #[trigger]
            holds_scalar(fields, scalar) ==> scalar_order(scalar, greatest)
                != Comparison::Greater
    }
}

/// Statistics of a field once it has occurred as given.
pub open spec fn observed_all(fields: Seq<FieldModel>) -> FieldStatsModel
    decreases fields.len(),
{
    if fields.len() == 0 {
        unseen()
    } else {
        observed(observed_all(fields.drop_last()), fields.last())
    }
}

/// The statistics of a field in summaries that are ordered by name.
pub open spec fn stats_of(fields: Seq<ScalarFieldModel>, name: Seq<char>) -> Option<
    FieldStatsModel,
> {
    match slot(field_names(fields), name) {
        Ok(at) => Some(fields[at].stats),
        Err(_) => None,
    }
}

proof fn lemma_total_update(counts: Seq<CountModel>, at: int, count: CountModel)
    requires
        0 <= at < counts.len(),
    ensures
        total(counts.update(at, count)) + counts[at].count == total(counts) + count.count,
    decreases counts.len(),
{
    let after = counts.update(at, count);
    if at < counts.len() - 1 {
        lemma_total_update(counts.drop_last(), at, count);
        assert(after.drop_last() =~= counts.drop_last().update(at, count));
    } else {
        assert(after.drop_last() =~= counts.drop_last());
    }
}

proof fn lemma_total_insert(counts: Seq<CountModel>, at: int, count: CountModel)
    requires
        0 <= at <= counts.len(),
    ensures
        total(counts.insert(at, count)) == total(counts) + count.count,
    decreases counts.len(),
{
    let after = counts.insert(at, count);
    if at < counts.len() {
        lemma_total_insert(counts.drop_last(), at, count);
        assert(after.drop_last() =~= counts.drop_last().insert(at, count));
    } else {
        assert(after.drop_last() =~= counts);
    }
}

/// Counting a value raises the sum by one.
proof fn lemma_total_counted(counts: Seq<CountModel>, value: Seq<char>)
    requires
        names_ascend(counted_values(counts)),
    ensures
        total(counted(counts, value)) == total(counts) + 1,
{
    lemma_slot_splits(counted_values(counts), value);
    match slot(counted_values(counts), value) {
        Ok(at) => {
            lemma_total_update(
                counts,
                at,
                CountModel { count: counts[at].count + 1, ..counts[at] },
            );
        },
        Err(at) => {
            lemma_total_insert(counts, at, CountModel { value, count: 1 });
        },
    }
}

/// Whether a scalar is no number, or a signed integer.
pub open spec fn is_ordered_scalar(scalar: ScalarModel) -> bool {
    scalar matches ScalarModel::Number(number) ==> number.signed is Some
}

/// Scalars whose numbers are signed integers are ordered: a chain of smaller ones is one of
/// smaller ones, and so is one of larger ones; none is smaller or larger than itself.
pub proof fn law_scalars_are_ordered(first: ScalarModel, second: ScalarModel, third: ScalarModel)
    requires
        is_ordered_scalar(first),
        is_ordered_scalar(second),
        is_ordered_scalar(third),
    ensures
        scalar_order(first, first) == Comparison::Equal,
        scalar_order(first, second) == Comparison::Less && scalar_order(second, third)
            == Comparison::Less ==> scalar_order(first, third) == Comparison::Less,
        scalar_order(first, second) == Comparison::Greater && scalar_order(second, third)
            == Comparison::Greater ==> scalar_order(first, third) == Comparison::Greater,
{
    if let ScalarModel::String(left) = first {
        lemma_text_order(left, left);
        if let ScalarModel::String(middle) = second {
            if let ScalarModel::String(right) = third {
                lemma_text_order(middle, left);
                lemma_text_order(right, middle);
                lemma_text_order(right, left);
                if scalar_order(first, second) == Comparison::Less && scalar_order(second, third)
                    == Comparison::Less {
                    lemma_text_order_transitive(left, middle, right);
                }
                if scalar_order(first, second) == Comparison::Greater && scalar_order(
                    second,
                    third,
                ) == Comparison::Greater {
                    lemma_text_order_transitive(right, middle, left);
                }
            }
        }
    }
}

proof fn lemma_held_is_ordered(fields: Seq<FieldModel>, scalar: ScalarModel)
    requires
        numbers_are_signed(fields),
        holds_scalar(fields, scalar),
    ensures
        is_ordered_scalar(scalar),
{
    let i = choose|i: int|
        0 <= i < fields.len() && scalar_of_json((#[trigger] fields[i]).value) == Some(scalar);
    assert(fields[i].value matches JsonModel::Number(number) ==> number.signed is Some);
}

/// What one more field does to the scalars that fields hold.
proof fn lemma_held_longer(fields: Seq<FieldModel>, scalar: ScalarModel)
    requires
        fields.len() > 0,
    ensures
        holds_scalar(fields, scalar) <==> holds_scalar(fields.drop_last(), scalar) || scalar
            != ScalarModel::Null && scalar_of_json(fields.last().value) == Some(scalar),
{
    let shorter = fields.drop_last();
    if holds_scalar(shorter, scalar) {
        let i = choose|i: int|
            0 <= i < shorter.len() && scalar_of_json((#[trigger] shorter[i]).value) == Some(
                scalar,
            );
        assert(scalar_of_json(fields[i].value) == Some(scalar));
    }
    if holds_scalar(fields, scalar) {
        let i = choose|i: int|
            0 <= i < fields.len() && scalar_of_json((#[trigger] fields[i]).value) == Some(scalar);
        if i < shorter.len() {
            assert(scalar_of_json(shorter[i].value) == Some(scalar));
        }
    }
    assert(fields.last() == fields[fields.len() - 1]);
}

proof fn lemma_extremes(fields: Seq<FieldModel>)
    requires
        fields.len() > 0,
        summarizes(observed_all(fields.drop_last()), fields.drop_last()),
        numbers_are_signed(fields),
    ensures
        ({
            let stats = observed_all(fields);
            &&& stats.min matches Some(least) ==> holds_scalar(fields, least) && forall|
                scalar: ScalarModel,
            | #[trigger]
                holds_scalar(fields, scalar) ==> scalar_order(scalar, least) != Comparison::Less
            &&& stats.max matches Some(greatest) ==> holds_scalar(fields, greatest) && forall|
                scalar: ScalarModel,
            | #[trigger]
                holds_scalar(fields, scalar) ==> scalar_order(scalar, greatest)
                    != Comparison::Greater
        }),
{
    let shorter = fields.drop_last();
    let before = observed_all(shorter);
    let stats = observed_all(fields);
    assert(numbers_are_signed(shorter)) by {
        assert forall|i: int| 0 <= i < shorter.len() implies ((
        #[trigger] shorter[i]).value matches JsonModel::Number(number)
            ==> number.signed is Some) by {
            assert(shorter[i] == fields[i]);
        }
    }
    if let Some(least) = stats.min {
        lemma_held_longer(fields, least);
        assert forall|scalar: ScalarModel| #[trigger] holds_scalar(fields, scalar) implies
            scalar_order(scalar, least) != Comparison::Less by {
            lemma_held_longer(fields, scalar);
            lemma_held_is_ordered(fields, scalar);
            lemma_held_is_ordered(fields, least);
            law_scalars_are_ordered(scalar, scalar, scalar);
            if before.min is Some {
                lemma_held_longer(fields, before.min->0);
                lemma_held_is_ordered(fields, before.min->0);
                law_scalars_are_ordered(scalar, least, before.min->0);
            }
        }
    }
    if let Some(greatest) = stats.max {
        lemma_held_longer(fields, greatest);
        assert forall|scalar: ScalarModel| #[trigger] holds_scalar(fields, scalar) implies
            scalar_order(scalar, greatest) != Comparison::Greater by {
            lemma_held_longer(fields, scalar);
            lemma_held_is_ordered(fields, scalar);
            lemma_held_is_ordered(fields, greatest);
            law_scalars_are_ordered(scalar, scalar, scalar);
            if before.max is Some {
                lemma_held_longer(fields, before.max->0);
                lemma_held_is_ordered(fields, before.max->0);
                law_scalars_are_ordered(scalar, greatest, before.max->0);
            }
        }
    }
}

proof fn lemma_observed_all(fields: Seq<FieldModel>)
    ensures
        summarizes(observed_all(fields), fields),
    decreases fields.len(),
{
    let stats = observed_all(fields);
    if fields.len() == 0 {
        assert forall|notation: Seq<char>| #[trigger]
            occurrences(stats.value_counts, notation) == tally(fields, is_written(notation)) by {
            assert(counted_values(stats.value_counts) =~= Seq::empty());
        }
        assert(counted_values(stats.value_counts) =~= Seq::empty());
    } else {
        let shorter = fields.drop_last();
        let field = fields.last();
        let before = observed_all(shorter);
        lemma_observed_all(shorter);
        if scalar_of_json(field.value) is Some {
            lemma_total_counted(before.value_counts, field.notation);
            law_counting(before.value_counts, field.notation, field.notation);
        }
        assert forall|notation: Seq<char>| #[trigger]
            occurrences(stats.value_counts, notation) == tally(fields, is_written(notation)) by {
            assert(occurrences(before.value_counts, notation) == tally(
                shorter,
                is_written(notation),
            ));
            if scalar_of_json(field.value) is Some {
                law_counting(before.value_counts, field.notation, notation);
            }
        }
        assert(stats.min is None <==> forall|scalar: ScalarModel|
            !#[trigger] holds_scalar(fields, scalar)) by {
            assert forall|scalar: ScalarModel| stats.min is None implies !#[trigger] holds_scalar(
                fields,
                scalar,
            ) by {
                lemma_held_longer(fields, scalar);
                assert(!holds_scalar(shorter, scalar));
            }
            if stats.min is Some {
                if before.min is Some {
                    let held = choose|scalar: ScalarModel| #[trigger] holds_scalar(shorter, scalar);
                    lemma_held_longer(fields, held);
                } else {
                    lemma_held_longer(fields, stats.min->0);
                }
            }
        }
        if numbers_are_signed(fields) {
            lemma_extremes(fields);
        }
    }
}

/// Recording a field changes the statistics under its name and no others.
proof fn lemma_with_field(fields: Seq<ScalarFieldModel>, field: FieldModel, name: Seq<char>)
    requires
        names_ascend(field_names(fields)),
    ensures
        stats_of(with_field(fields, field), name) == (if name == field.name {
            Some(
                observed(
                    match stats_of(fields, name) {
                        Some(stats) => stats,
                        None => unseen(),
                    },
                    field,
                ),
            )
        } else {
            stats_of(fields, name)
        }),
{
    let names = field_names(fields);
    let after = with_field(fields, field);
    let after_names = field_names(after);
    lemma_slot_splits(names, field.name);
    lemma_slot_splits(names, name);
    match slot(names, field.name) {
        Ok(at) => {
            assert(after_names =~= names);
            if name != field.name {
                if let Ok(there) = slot(names, name) {
                    assert(there != at);
                }
            }
        },
        Err(at) => {
            lemma_insert_ascends(names, field.name, at);
            assert(after_names =~= names.insert(at, field.name));
            lemma_slot_of_member(after_names, at);
            lemma_slot_splits(after_names, name);
            if name != field.name {
                match slot(names, name) {
                    Ok(there) => {
                        let moved = if there < at {
                            there
                        } else {
                            there + 1
                        };
                        assert(after_names[moved] == name);
                        lemma_slot_of_member(after_names, moved);
                        assert(after[moved] == fields[there]);
                    },
                    Err(_) => {
                        if let Ok(there) = slot(after_names, name) {
                            let origin = if there < at {
                                there
                            } else {
                                there - 1
                            };
                            assert(there != at);
                            assert(names[origin] == name);
                            lemma_slot_of_member(names, origin);
                        }
                    },
                }
            }
        },
    }
}

proof fn lemma_not_named(document: Seq<FieldModel>, early: nat, count: nat, name: Seq<char>)
    requires
        distinct_names(document),
        early <= count < document.len(),
        document[count as int].name == name,
    ensures
        field_named(document, early, name) is None,
    decreases early,
{
    if early > 0 {
        assert(document[early - 1].name != document[count as int].name);
        lemma_not_named(document, (early - 1) as nat, count, name);
    }
}

/// What recording a document does to the statistics under a name.
proof fn lemma_with_fields(
    fields: Seq<ScalarFieldModel>,
    document: Seq<FieldModel>,
    count: nat,
    name: Seq<char>,
)
    requires
        names_ascend(field_names(fields)),
        distinct_names(document),
        count <= document.len(),
    ensures
        stats_of(with_fields(fields, document, count), name) == (match field_named(
            document,
            count,
            name,
        ) {
            Some(field) => Some(
                observed(
                    match stats_of(fields, name) {
                        Some(stats) => stats,
                        None => unseen(),
                    },
                    field,
                ),
            ),
            None => stats_of(fields, name),
        }),
    decreases count,
{
    if count > 0 {
        let earlier = (count - 1) as nat;
        lemma_with_fields(fields, document, earlier, name);
        lemma_fields_ordered(fields, document, earlier);
        lemma_with_field(with_fields(fields, document, earlier), document[count - 1], name);
        if document[count - 1].name == name {
            lemma_not_named(document, earlier, earlier, name);
        }
    }
}

proof fn lemma_history(documents: Seq<Seq<FieldModel>>, count: nat, name: Seq<char>)
    requires
        count <= documents.len(),
        forall|i: int| 0 <= i < count ==> distinct_names(#[trigger] documents[i]),
    ensures
        stats_of(summarized(documents, count), name) == (if history(
            documents,
            count,
            name,
        ).len() == 0 {
            None
        } else {
            Some(observed_all(history(documents, count, name)))
        }),
    decreases count,
{
    if count == 0 {
        assert(field_names(summarized(documents, 0)) =~= Seq::empty());
    } else {
        let earlier = (count - 1) as nat;
        let document = documents[count - 1];
        lemma_history(documents, earlier, name);
        law_summaries_are_ordered(documents, earlier);
        lemma_with_fields(summarized(documents, earlier), document, document.len(), name);
        if let Some(field) = field_named(document, document.len(), name) {
            let before = history(documents, earlier, name);
            assert(history(documents, count, name) == before.push(field));
            assert(before.push(field).drop_last() =~= before);
            if before.len() == 0 {
                assert(before =~= Seq::empty());
            }
        }
    }
}

/// The summaries of documents have a field under exactly the names that some document has,
/// and say of each how often it was there and was null, how often each scalar was in it,
/// how many different ones were, and, where every number in it is a signed integer, which
/// was the least and which the greatest.
pub proof fn law_summaries_describe_documents(
    documents: Seq<Seq<FieldModel>>,
    count: nat,
    name: Seq<char>,
)
    requires
        count <= documents.len(),
        forall|i: int| 0 <= i < count ==> distinct_names(#[trigger] documents[i]),
    ensures
        ({
            let fields = summarized(documents, count);
            let found = history(documents, count, name);
            &&& field_names(fields).contains(name) <==> found.len() > 0
            &&& forall|i: int|
                0 <= i < fields.len() && (#[trigger] fields[i]).name == name ==> summarizes(
                    fields[i].stats,
                    found,
                )
        }),
{
    let fields = summarized(documents, count);
    let names = field_names(fields);
    let found = history(documents, count, name);
    lemma_history(documents, count, name);
    law_summaries_are_ordered(documents, count);
    lemma_slot_splits(names, name);
    lemma_observed_all(found);
    if let Ok(at) = slot(names, name) {
        assert(names.contains(names[at]));
    }
    if names.contains(name) {
        let at = choose|at: int| 0 <= at < names.len() && names[at] == name;
        lemma_slot_of_member(names, at);
    }
    assert forall|i: int|
        0 <= i < fields.len() && (#[trigger] fields[i]).name == name implies summarizes(
        fields[i].stats,
        found,
    ) by {
        assert(names[i] == name);
        lemma_slot_of_member(names, i);
    }
}

/// Whether a field of a name is a number in one of the first `count` documents, and this one.
pub open spec fn number_in(
    documents: Seq<Seq<FieldModel>>,
    count: nat,
    name: Seq<char>,
    number: JsonNumber,
) -> bool {
    exists|at: int, place: int|
        0 <= at < count && 0 <= place < documents[at].len() && (
        #[trigger] documents[at][place]).name == name && documents[at][place].value
            == JsonModel::Number(number)
}

/// Whether a field of a name is a text in one of the first `count` documents, and this one.
pub open spec fn text_in(
    documents: Seq<Seq<FieldModel>>,
    count: nat,
    name: Seq<char>,
    text: Seq<char>,
) -> bool {
    exists|at: int, place: int|
        0 <= at < count && 0 <= place < documents[at].len() && (
        #[trigger] documents[at][place]).name == name && documents[at][place].value
            == JsonModel::Text(text)
}

/// Whether a number has a finite double.
pub open spec fn has_finite_double(number: JsonNumber) -> bool {
    number.double_bits matches Some(bits) && bits % 0x8000_0000_0000_0000 < 0x7ff0_0000_0000_0000
}

/// Whether the doubles of two numbers are in the order of the integers that both are, where they
/// are.
pub open spec fn doubles_follow(left: JsonNumber, right: JsonNumber) -> bool {
    &&& left.signed is Some && right.signed is Some && left.signed->0 <= right.signed->0
        ==> double_units(left.double_bits->0) <= double_units(right.double_bits->0)
    &&& left.unsigned is Some && right.unsigned is Some && left.unsigned->0 <= right.unsigned->0
        ==> double_units(left.double_bits->0) <= double_units(right.double_bits->0)
}

/// Whether the numbers among fields have finite doubles that are in the order of the integers that
/// they are.
pub open spec fn numbers_have_order(fields: Seq<FieldModel>) -> bool {
    &&& forall|number: JsonNumber| #[trigger]
        holds_scalar(fields, ScalarModel::Number(number)) ==> has_finite_double(number)
    &&& forall|left: JsonNumber, right: JsonNumber|
        #![trigger holds_scalar(fields, ScalarModel::Number(left)), holds_scalar(fields, ScalarModel::Number(right))]
        holds_scalar(fields, ScalarModel::Number(left)) && holds_scalar(
            fields,
            ScalarModel::Number(right),
        ) ==> doubles_follow(left, right)
}

/// Whether a scalar is at most another: of an earlier kind, or of the same kind and not larger.
pub open spec fn at_most(left: ScalarModel, right: ScalarModel) -> bool {
    match (left, right) {
        (ScalarModel::Number(first), ScalarModel::Number(second)) => double_units(
            first.double_bits->0,
        ) <= double_units(second.double_bits->0),
        (ScalarModel::String(first), ScalarModel::String(second)) => text_order(second, first)
            != Comparison::Less,
        (ScalarModel::Bool(first), ScalarModel::Bool(second)) => !first || second,
        (ScalarModel::Null, _) => true,
        (ScalarModel::Bool(_), ScalarModel::Number(_)) => true,
        (ScalarModel::Bool(_), ScalarModel::String(_)) => true,
        (ScalarModel::Number(_), ScalarModel::String(_)) => true,
        _ => false,
    }
}

proof fn lemma_at_most(left: ScalarModel, right: ScalarModel)
    requires
        left matches ScalarModel::Number(first) ==> has_finite_double(first),
        right matches ScalarModel::Number(second) ==> has_finite_double(second),
        left matches ScalarModel::Number(first) ==> (right matches ScalarModel::Number(second)
            ==> doubles_follow(first, second) && doubles_follow(second, first)),
    ensures
        scalar_order(left, right) == Comparison::Less ==> at_most(left, right),
        scalar_order(left, right) != Comparison::Less ==> at_most(right, left),
        scalar_order(left, right) == Comparison::Greater ==> at_most(right, left),
        scalar_order(left, right) != Comparison::Greater ==> at_most(left, right),
{
    if let ScalarModel::Number(first) = left {
        if let ScalarModel::Number(second) = right {
            law_numbers_compare_as_numbers(first, second);
        }
    }
    if let ScalarModel::String(first) = left {
        if let ScalarModel::String(second) = right {
            lemma_text_order(first, second);
            lemma_text_order(second, first);
        }
    }
}

proof fn lemma_at_most_transitive(first: ScalarModel, second: ScalarModel, third: ScalarModel)
    requires
        at_most(first, second),
        at_most(second, third),
    ensures
        at_most(first, third),
{
    if let ScalarModel::String(left) = first {
        if let ScalarModel::String(middle) = second {
            if let ScalarModel::String(right) = third {
                lemma_text_order(left, middle);
                lemma_text_order(middle, left);
                lemma_text_order(middle, right);
                lemma_text_order(right, middle);
                lemma_text_order(left, right);
                lemma_text_order(right, left);
                if text_order(left, middle) == Comparison::Less && text_order(middle, right)
                    == Comparison::Less {
                    lemma_text_order_transitive(left, middle, right);
                }
            }
        }
    }
}

/// The least scalar of fields is at most each of them, and each at most the greatest.
proof fn lemma_extremes_bound(fields: Seq<FieldModel>)
    requires
        numbers_have_order(fields),
    ensures
        ({
            let stats = observed_all(fields);
            &&& stats.min matches Some(least) ==> holds_scalar(fields, least)
            &&& stats.max matches Some(greatest) ==> holds_scalar(fields, greatest)
            &&& forall|scalar: ScalarModel| #[trigger]
                holds_scalar(fields, scalar) ==> (stats.min matches Some(least) && at_most(
                    least,
                    scalar,
                )) && (stats.max matches Some(greatest) && at_most(scalar, greatest))
        }),
    decreases fields.len(),
{
    if fields.len() > 0 {
        let shorter = fields.drop_last();
        let before = observed_all(shorter);
        let stats = observed_all(fields);
        let last = scalar_of_json(fields.last().value);
        assert(numbers_have_order(shorter)) by {
            assert forall|number: JsonNumber| #[trigger]
                holds_scalar(shorter, ScalarModel::Number(number)) implies has_finite_double(
                number,
            ) by {
                lemma_held_longer(fields, ScalarModel::Number(number));
            }
            assert forall|left: JsonNumber, right: JsonNumber|
                #![trigger holds_scalar(shorter, ScalarModel::Number(left)), holds_scalar(shorter, ScalarModel::Number(right))]
                holds_scalar(shorter, ScalarModel::Number(left)) && holds_scalar(
                    shorter,
                    ScalarModel::Number(right),
                ) implies doubles_follow(left, right) by {
                lemma_held_longer(fields, ScalarModel::Number(left));
                lemma_held_longer(fields, ScalarModel::Number(right));
            }
        }
        lemma_extremes_bound(shorter);
        if let Some(scalar) = last {
            lemma_held_longer(fields, scalar);
            if scalar != ScalarModel::Null {
                if let Some(held) = before.min {
                    lemma_held_longer(fields, held);
                    lemma_at_most(scalar, held);
                    lemma_at_most(held, held);
                    lemma_at_most(scalar, scalar);
                }
                if let Some(held) = before.max {
                    lemma_held_longer(fields, held);
                    lemma_at_most(scalar, held);
                    lemma_at_most(held, held);
                    lemma_at_most(scalar, scalar);
                }
                lemma_at_most(scalar, scalar);
            }
        }
        if before.min is Some {
            lemma_held_longer(fields, before.min->0);
        }
        if before.max is Some {
            lemma_held_longer(fields, before.max->0);
        }
        assert forall|scalar: ScalarModel| #[trigger] holds_scalar(fields, scalar) implies (
        stats.min matches Some(least) && at_most(least, scalar)) && (stats.max matches Some(greatest)
            && at_most(scalar, greatest)) by {
            lemma_held_longer(fields, scalar);
            lemma_at_most(scalar, scalar);
            if holds_scalar(shorter, scalar) {
                lemma_at_most(before.min->0, before.min->0);
                lemma_at_most(before.max->0, before.max->0);
                lemma_at_most_transitive(stats.min->0, before.min->0, scalar);
                lemma_at_most_transitive(scalar, before.max->0, stats.max->0);
            }
        }
    }
}

proof fn lemma_field_named(document: Seq<FieldModel>, count: nat, name: Seq<char>, place: int)
    requires
        distinct_names(document),
        0 <= place < count <= document.len(),
        document[place].name == name,
    ensures
        field_named(document, count, name) == Some(document[place]),
    decreases count,
{
    if place < count - 1 {
        assert(document[place].name != document[count - 1].name);
        lemma_field_named(document, (count - 1) as nat, name, place);
    }
}

proof fn lemma_named_field(document: Seq<FieldModel>, count: nat, name: Seq<char>) -> (place: int)
    requires
        count <= document.len(),
        field_named(document, count, name) is Some,
    ensures
        0 <= place < count,
        field_named(document, count, name) == Some(document[place]),
        document[place].name == name,
    decreases count,
{
    if document[count - 1].name == name {
        count - 1
    } else {
        lemma_named_field(document, (count - 1) as nat, name)
    }
}

/// A field of a name is in the history of the name, in whatever document it stands.
proof fn lemma_in_history(
    documents: Seq<Seq<FieldModel>>,
    count: nat,
    name: Seq<char>,
    at: int,
    place: int,
)
    requires
        count <= documents.len(),
        forall|i: int| 0 <= i < count ==> distinct_names(#[trigger] documents[i]),
        0 <= at < count,
        0 <= place < documents[at].len(),
        documents[at][place].name == name,
    ensures
        history(documents, count, name).contains(documents[at][place]),
    decreases count,
{
    let document = documents[count - 1];
    let earlier = history(documents, (count - 1) as nat, name);
    if at == count - 1 {
        lemma_field_named(document, document.len(), name, place);
        assert(earlier.push(document[place]).last() == document[place]);
    } else {
        lemma_in_history(documents, (count - 1) as nat, name, at, place);
        let i = choose|i: int| 0 <= i < earlier.len() && earlier[i] == documents[at][place];
        let found = history(documents, count, name);
        assert(found[i] == earlier[i]);
    }
}

/// What is in the history of a name is a field of the name in one of the documents.
proof fn lemma_of_history(
    documents: Seq<Seq<FieldModel>>,
    count: nat,
    name: Seq<char>,
    i: int,
) -> (from: (int, int))
    requires
        count <= documents.len(),
        0 <= i < history(documents, count, name).len(),
    ensures
        0 <= from.0 < count,
        0 <= from.1 < documents[from.0].len(),
        documents[from.0][from.1] == history(documents, count, name)[i],
        documents[from.0][from.1].name == name,
    decreases count,
{
    let document = documents[count - 1];
    let earlier = history(documents, (count - 1) as nat, name);
    if i < earlier.len() {
        lemma_of_history(documents, (count - 1) as nat, name, i)
    } else {
        (count - 1, lemma_named_field(document, document.len(), name))
    }
}

proof fn lemma_numbers_of_history(
    documents: Seq<Seq<FieldModel>>,
    count: nat,
    name: Seq<char>,
    number: JsonNumber,
    text: Seq<char>,
)
    requires
        count <= documents.len(),
        forall|i: int| 0 <= i < count ==> distinct_names(#[trigger] documents[i]),
    ensures
        number_in(documents, count, name, number) <==> holds_scalar(
            history(documents, count, name),
            ScalarModel::Number(number),
        ),
        text_in(documents, count, name, text) <==> holds_scalar(
            history(documents, count, name),
            ScalarModel::String(text),
        ),
{
    let found = history(documents, count, name);
    if number_in(documents, count, name, number) {
        let (at, place) = choose|at: int, place: int|
            0 <= at < count && 0 <= place < documents[at].len() && (
            #[trigger] documents[at][place]).name == name && documents[at][place].value
                == JsonModel::Number(number);
        lemma_in_history(documents, count, name, at, place);
        let i = choose|i: int| 0 <= i < found.len() && found[i] == documents[at][place];
        assert(scalar_of_json(found[i].value) == Some(ScalarModel::Number(number)));
    }
    if text_in(documents, count, name, text) {
        let (at, place) = choose|at: int, place: int|
            0 <= at < count && 0 <= place < documents[at].len() && (
            #[trigger] documents[at][place]).name == name && documents[at][place].value
                == JsonModel::Text(text);
        lemma_in_history(documents, count, name, at, place);
        let i = choose|i: int| 0 <= i < found.len() && found[i] == documents[at][place];
        assert(scalar_of_json(found[i].value) == Some(ScalarModel::String(text)));
    }
    if holds_scalar(found, ScalarModel::Number(number)) {
        let i = choose|i: int|
            0 <= i < found.len() && scalar_of_json((#[trigger] found[i]).value) == Some(
                ScalarModel::Number(number),
            );
        let (at, place) = lemma_of_history(documents, count, name, i);
        assert(documents[at][place].value == JsonModel::Number(number));
    }
    if holds_scalar(found, ScalarModel::String(text)) {
        let i = choose|i: int|
            0 <= i < found.len() && scalar_of_json((#[trigger] found[i]).value) == Some(
                ScalarModel::String(text),
            );
        let (at, place) = lemma_of_history(documents, count, name, i);
        assert(documents[at][place].value == JsonModel::Text(text));
    }
}

/// Where every number of a field has a finite double, integer or not, and the doubles of those that
/// are integers are in the order of the integers, the least scalar that the summary of the field
/// gives is no larger than any number of the field and the greatest no smaller, by the exact values
/// of the doubles; and where the least or the greatest is a number, it is one of the field's.
pub proof fn law_extremes_bound_every_number(
    documents: Seq<Seq<FieldModel>>,
    count: nat,
    name: Seq<char>,
    i: int,
)
    requires
        count <= documents.len(),
        forall|at: int| 0 <= at < count ==> distinct_names(#[trigger] documents[at]),
        forall|number: JsonNumber| #[trigger]
            number_in(documents, count, name, number) ==> has_finite_double(number),
        forall|left: JsonNumber, right: JsonNumber|
            #![trigger number_in(documents, count, name, left), number_in(documents, count, name, right)]
            number_in(documents, count, name, left) && number_in(documents, count, name, right)
                ==> doubles_follow(left, right),
        0 <= i < summarized(documents, count).len(),
        summarized(documents, count)[i].name == name,
    ensures
        ({
            let stats = summarized(documents, count)[i].stats;
            &&& forall|number: JsonNumber| #[trigger]
                number_in(documents, count, name, number) ==> {
                    &&& stats.min is Some
                    &&& stats.max is Some
                    &&& stats.min->0 is Bool || (stats.min->0 matches ScalarModel::Number(least)
                        && double_units(least.double_bits->0) <= double_units(
                        number.double_bits->0,
                    ))
                    &&& stats.max->0 is String || (stats.max->0 matches ScalarModel::Number(greatest)
                        && double_units(greatest.double_bits->0) >= double_units(
                        number.double_bits->0,
                    ))
                }
            &&& stats.min matches Some(ScalarModel::Number(least)) ==> number_in(
                documents,
                count,
                name,
                least,
            )
            &&& stats.max matches Some(ScalarModel::Number(greatest)) ==> number_in(
                documents,
                count,
                name,
                greatest,
            )
        }),
{
    let fields = summarized(documents, count);
    let names = field_names(fields);
    let found = history(documents, count, name);
    lemma_history(documents, count, name);
    law_summaries_are_ordered(documents, count);
    assert(names[i] == name);
    lemma_slot_of_member(names, i);
    let stats = fields[i].stats;
    assert(stats == observed_all(found));
    assert(numbers_have_order(found)) by {
        assert forall|number: JsonNumber| #[trigger]
            holds_scalar(found, ScalarModel::Number(number)) implies has_finite_double(number) by {
            lemma_numbers_of_history(documents, count, name, number, Seq::empty());
        }
        assert forall|left: JsonNumber, right: JsonNumber|
            #![trigger holds_scalar(found, ScalarModel::Number(left)), holds_scalar(found, ScalarModel::Number(right))]
            holds_scalar(found, ScalarModel::Number(left)) && holds_scalar(
                found,
                ScalarModel::Number(right),
            ) implies doubles_follow(left, right) by {
            lemma_numbers_of_history(documents, count, name, left, Seq::empty());
            lemma_numbers_of_history(documents, count, name, right, Seq::empty());
        }
    }
    lemma_extremes_bound(found);
    assert forall|number: JsonNumber| #[trigger]
        number_in(documents, count, name, number) implies {
        &&& stats.min is Some
        &&& stats.max is Some
        &&& stats.min->0 is Bool || (stats.min->0 matches ScalarModel::Number(least)
            && double_units(least.double_bits->0) <= double_units(number.double_bits->0))
        &&& stats.max->0 is String || (stats.max->0 matches ScalarModel::Number(greatest)
            && double_units(greatest.double_bits->0) >= double_units(number.double_bits->0))
    } by {
        lemma_numbers_of_history(documents, count, name, number, Seq::empty());
        assert(holds_scalar(found, ScalarModel::Number(number)));
        assert(holds_scalar(found, stats.min->0));
    }
    if let Some(ScalarModel::Number(least)) = stats.min {
        lemma_numbers_of_history(documents, count, name, least, Seq::empty());
    }
    if let Some(ScalarModel::Number(greatest)) = stats.max {
        lemma_numbers_of_history(documents, count, name, greatest, Seq::empty());
    }
}

/// Where every number of a field is a double and no integer, the least scalar that the summary of
/// the field gives is no larger than any number of the field and the greatest no smaller, by the
/// exact values of the doubles.
pub proof fn law_extremes_bound_every_double(
    documents: Seq<Seq<FieldModel>>,
    count: nat,
    name: Seq<char>,
    i: int,
)
    requires
        count <= documents.len(),
        forall|at: int| 0 <= at < count ==> distinct_names(#[trigger] documents[at]),
        forall|number: JsonNumber| #[trigger]
            number_in(documents, count, name, number) ==> number.signed is None
                && number.unsigned is None && has_finite_double(number),
        0 <= i < summarized(documents, count).len(),
        summarized(documents, count)[i].name == name,
    ensures
        ({
            let stats = summarized(documents, count)[i].stats;
            forall|number: JsonNumber| #[trigger]
                number_in(documents, count, name, number) ==> {
                    &&& stats.min is Some
                    &&& stats.max is Some
                    &&& stats.min->0 is Bool || (stats.min->0 matches ScalarModel::Number(least)
                        && double_units(least.double_bits->0) <= double_units(
                        number.double_bits->0,
                    ))
                    &&& stats.max->0 is String || (stats.max->0 matches ScalarModel::Number(greatest)
                        && double_units(greatest.double_bits->0) >= double_units(
                        number.double_bits->0,
                    ))
                }
        }),
{
    law_extremes_bound_every_number(documents, count, name, i);
}

/// Where every number of a field is a signed integer, the least scalar that the summary of the field
/// gives is no larger than any number of the field and the greatest no smaller, as integers.
pub proof fn law_extremes_bound_every_integer(
    documents: Seq<Seq<FieldModel>>,
    count: nat,
    name: Seq<char>,
    i: int,
    number: JsonNumber,
)
    requires
        count <= documents.len(),
        forall|at: int| 0 <= at < count ==> distinct_names(#[trigger] documents[at]),
        forall|other: JsonNumber| #[trigger]
            number_in(documents, count, name, other) ==> other.signed is Some,
        0 <= i < summarized(documents, count).len(),
        summarized(documents, count)[i].name == name,
        number_in(documents, count, name, number),
    ensures
        ({
            let stats = summarized(documents, count)[i].stats;
            &&& stats.min is Some
            &&& stats.max is Some
            &&& stats.min->0 is Bool || (stats.min->0 matches ScalarModel::Number(least)
                && least.signed is Some && least.signed->0 <= number.signed->0)
            &&& stats.max->0 is String || (stats.max->0 matches ScalarModel::Number(greatest)
                && greatest.signed is Some && greatest.signed->0 >= number.signed->0)
        }),
{
    let found = history(documents, count, name);
    let stats = summarized(documents, count)[i].stats;
    law_summaries_describe_documents(documents, count, name);
    assert(summarizes(stats, found));
    assert(numbers_are_signed(found)) by {
        assert forall|at: int| 0 <= at < found.len() implies ((
        #[trigger] found[at]).value matches JsonModel::Number(other)
            ==> other.signed is Some) by {
            if let JsonModel::Number(other) = found[at].value {
                assert(scalar_of_json(found[at].value) == Some(ScalarModel::Number(other)));
                assert(holds_scalar(found, ScalarModel::Number(other)));
                lemma_numbers_of_history(documents, count, name, other, Seq::empty());
            }
        }
    }
    lemma_numbers_of_history(documents, count, name, number, Seq::empty());
    let scalar = ScalarModel::Number(number);
    assert(holds_scalar(found, scalar));
    assert(holds_scalar(found, stats.min->0));
    assert(holds_scalar(found, stats.max->0));
    assert(scalar_order(scalar, stats.min->0) != Comparison::Less);
    assert(scalar_order(scalar, stats.max->0) != Comparison::Greater);
    if let ScalarModel::Number(least) = stats.min->0 {
        lemma_numbers_of_history(documents, count, name, least, Seq::empty());
        law_numbers_compare_as_numbers(number, least);
    }
    if let ScalarModel::Number(greatest) = stats.max->0 {
        lemma_numbers_of_history(documents, count, name, greatest, Seq::empty());
        law_numbers_compare_as_numbers(number, greatest);
    }
}

/// Where a field holds a text, the greatest scalar that the summary of the field gives is a text and
/// no text of the field comes after it; and where the least is one, none comes before that.
pub proof fn law_extremes_bound_every_text(
    documents: Seq<Seq<FieldModel>>,
    count: nat,
    name: Seq<char>,
    i: int,
    text: Seq<char>,
)
    requires
        count <= documents.len(),
        forall|at: int| 0 <= at < count ==> distinct_names(#[trigger] documents[at]),
        forall|number: JsonNumber| #[trigger]
            number_in(documents, count, name, number) ==> number.signed is Some,
        0 <= i < summarized(documents, count).len(),
        summarized(documents, count)[i].name == name,
        text_in(documents, count, name, text),
    ensures
        ({
            let stats = summarized(documents, count)[i].stats;
            &&& stats.min is Some
            &&& stats.min->0 matches ScalarModel::String(least) ==> text_order(text, least)
                != Comparison::Less
            &&& stats.max matches Some(ScalarModel::String(greatest)) && text_order(text, greatest)
                != Comparison::Greater
        }),
{
    let found = history(documents, count, name);
    let stats = summarized(documents, count)[i].stats;
    law_summaries_describe_documents(documents, count, name);
    assert(summarizes(stats, found));
    assert(numbers_are_signed(found)) by {
        assert forall|at: int| 0 <= at < found.len() implies ((
        #[trigger] found[at]).value matches JsonModel::Number(other)
            ==> other.signed is Some) by {
            if let JsonModel::Number(other) = found[at].value {
                assert(scalar_of_json(found[at].value) == Some(ScalarModel::Number(other)));
                assert(holds_scalar(found, ScalarModel::Number(other)));
                lemma_numbers_of_history(documents, count, name, other, Seq::empty());
            }
        }
    }
    let any = JsonNumber { signed: None, unsigned: None, double_bits: None };
    lemma_numbers_of_history(documents, count, name, any, text);
    let scalar = ScalarModel::String(text);
    assert(holds_scalar(found, scalar));
    assert(scalar_order(scalar, stats.min->0) != Comparison::Less);
    assert(scalar_order(scalar, stats.max->0) != Comparison::Greater);
    assert(holds_scalar(found, stats.max->0));
}

} // verus!
