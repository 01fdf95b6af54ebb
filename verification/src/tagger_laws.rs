//! What the selection of predicted tags owes to the labels and confidences that
//! it is given.

use vstd::prelude::*;

use crate::order::{
    arrangement, goes_before, lemma_arrangement_exists, lemma_arrangement_permutes,
    lemma_text_irreflexive,
};
use crate::settings::{clamped, ranged, PreferencesView};
use crate::tagger::{
    by_confidence, file_row, is_best_rating, is_finite, is_label_header, is_label_result,
    is_label_row, is_predicted, is_rated, is_row_error, label_views, lemma_one_best_rating,
    options_error, predicted, prediction_at, prediction_rank, prediction_ranks, row_label,
    total_order, value_order, Label, LabelError, LabelView, PredictionError, PredictionView,
    TagCategory, TaggerOptions,
};
use crate::text::trimmed;
use crate::text_laws::{law_decimal_stands_for_its_number, number_of};

verus! {

/// The bits of one.
pub const ONE: u32 = 0x3f80_0000;

/// The bits of zero below zero.
pub const MINUS_ZERO: u32 = 0x8000_0000;

/// The bits of infinity.
pub const INFINITY: u32 = 0x7f80_0000;

/// Whether a finite number, given by its bits, is not below a threshold between
/// zero and one. Numbers that are not below zero are ordered as their bits are,
/// and the two zeros are equal.
pub open spec fn reaches(confidence: u32, threshold: u32) -> bool {
    if threshold == 0 || threshold == MINUS_ZERO {
        confidence < INFINITY || confidence == MINUS_ZERO
    } else {
        threshold <= confidence < INFINITY
    }
}

/// The order of the numbers that bits stand for: that of the bits above zero,
/// the opposite below, with the two zeros equal; all bits of the exponent are
/// set in a number that is not finite. The total order tells apart what is equal
/// as a number, and otherwise goes by the numbers.
pub proof fn law_numbers_are_ordered(a: u32, b: u32)
    ensures
        a < MINUS_ZERO && b < MINUS_ZERO ==> (value_order(a) <= value_order(b) <==> a <= b),
        a < MINUS_ZERO && b == a + MINUS_ZERO ==> value_order(b) == -value_order(a),
        a < MINUS_ZERO <= b ==> value_order(b) <= value_order(a),
        is_finite(a) <==> a / 0x80_0000 % 256 != 255,
        value_order(a) < value_order(b) ==> total_order(a) < total_order(b),
        total_order(a) == total_order(b) ==> a == b,
        a < MINUS_ZERO <= b ==> total_order(b) < total_order(a),
{
}

/// Thresholds are refused if and only if one is not between zero and one, and
/// the first such one is named.
pub proof fn law_thresholds_are_shares(options: TaggerOptions)
    ensures
        ({
            let general = options.general_threshold;
            let character = options.character_threshold;
            let error = options_error(options);
            &&& error is None <==> (general <= ONE || general == MINUS_ZERO) && (character <= ONE
                || character == MINUS_ZERO)
            &&& error == Some(PredictionError::GeneralThreshold) <==> general > ONE && general
                != MINUS_ZERO
            &&& error is Some ==> error == Some(PredictionError::GeneralThreshold) || error == Some(
                PredictionError::CharacterThreshold,
            )
        }),
{
}

/// The places of the labels that are predicted, in order.
proof fn lemma_predicted(
    labels: Seq<LabelView>,
    confidences: Seq<u32>,
    options: TaggerOptions,
    count: nat,
) -> (places: Seq<int>)
    ensures
        predicted(labels, confidences, options, count).len() == places.len(),
        places.len() <= count,
        forall|k: int|
            0 <= k < places.len() ==> #[trigger] predicted(labels, confidences, options, count)[k]
                == prediction_at(labels, confidences, places[k]),
        forall|k: int|
            0 <= k < places.len() ==> 0 <= #[trigger] places[k] < count && is_predicted(
                labels,
                confidences,
                options,
                places[k],
            ),
        forall|a: int, b: int|
            0 <= a < b < places.len() ==> #[trigger] places[a] < #[trigger] places[b],
        forall|i: int|
            0 <= i < count && is_predicted(labels, confidences, options, i) ==> #[trigger]
            places.contains(i),
    decreases count,
{
    if count == 0 {
        Seq::<int>::empty()
    } else {
        let i = count - 1;
        let rest = lemma_predicted(labels, confidences, options, i as nat);
        if is_predicted(labels, confidences, options, i) {
            let places = rest.push(i);
            assert forall|j: int|
                0 <= j < count && is_predicted(labels, confidences, options, j) implies #[trigger]
            places.contains(j) by {
                if j < i {
                    assert(rest.contains(j));
                    let k = choose|k: int| 0 <= k < rest.len() && rest[k] == j;
                    assert(places[k] == j);
                } else {
                    assert(places[rest.len() as int] == j);
                }
            }
            places
        } else {
            rest
        }
    }
}

/// What is predicted, entry by entry. Each entry of the list that is returned
/// is one label, with its name, its category and its confidence, and no label is
/// listed twice. A general or character label is listed if and only if its
/// confidence is a finite number that is not below the threshold of its category.
/// The confidences fall, and labels of equal confidence keep their order.
pub proof fn law_what_is_predicted(
    labels: Seq<LabelView>,
    confidences: Seq<u32>,
    options: TaggerOptions,
) -> (places: Seq<int>)
    requires
        labels.len() == confidences.len(),
        labels.len() <= usize::MAX,
        options_error(options) is None,
    ensures
        ({
            let list = by_confidence(predicted(labels, confidences, options, labels.len()));
            &&& list.len() == places.len()
            &&& forall|k: int|
                0 <= k < list.len() ==> {
                    &&& 0 <= places[k] < labels.len()
                    &&& (#[trigger] list[k]).tag == labels[places[k]].name
                    &&& list[k].category == labels[places[k]].category
                    &&& list[k].confidence == confidences[places[k]]
                    &&& list[k].category == TagCategory::General ==> reaches(
                        list[k].confidence,
                        options.general_threshold,
                    )
                    &&& list[k].category == TagCategory::Character ==> reaches(
                        list[k].confidence,
                        options.character_threshold,
                    )
                }
            &&& forall|a: int, b: int|
                0 <= a < b < list.len() ==> {
                    &&& total_order((#[trigger] list[a]).confidence) >= total_order(
                        (#[trigger] list[b]).confidence,
                    )
                    &&& list[a].confidence == list[b].confidence ==> places[a] < places[b]
                }
        }),
        places.no_duplicates(),
        forall|i: int|
            0 <= i < labels.len() && labels[i].category == TagCategory::General && reaches(
                confidences[i],
                options.general_threshold,
            ) ==> #[trigger] places.contains(i),
        forall|i: int|
            0 <= i < labels.len() && labels[i].category == TagCategory::Character && reaches(
                confidences[i],
                options.character_threshold,
            ) ==> #[trigger] places.contains(i),
{
    let found = predicted(labels, confidences, options, labels.len());
    let rows = lemma_predicted(labels, confidences, options, labels.len());
    let ranks = prediction_ranks(found);
    let order = arrangement(ranks, true);
    let list = by_confidence(found);
    lemma_arrangement_exists(ranks, true);
    lemma_arrangement_permutes(order, ranks, true);
    let places = Seq::new(order.len(), |k: int| rows[order[k] as int]);
    assert forall|k: int| 0 <= k < list.len() implies {
        &&& 0 <= places[k] < labels.len()
        &&& #[trigger] list[k] == prediction_at(labels, confidences, places[k])
        &&& is_predicted(labels, confidences, options, places[k])
    } by {
        assert(order.contains(order[k]));
        assert(list[k] == found[order[k] as int]);
        assert(places[k] == rows[order[k] as int]);
    }
    assert forall|a: int, b: int| 0 <= a < b < list.len() implies {
        &&& total_order((#[trigger] list[a]).confidence) >= total_order(
            (#[trigger] list[b]).confidence,
        )
        &&& list[a].confidence == list[b].confidence ==> places[a] < places[b]
    } by {
        assert(order.contains(order[a]) && order.contains(order[b]));
        let x = order[a] as int;
        let y = order[b] as int;
        assert(goes_before(ranks, true, x, y));
        assert(ranks[x] == prediction_rank(found[x]));
        assert(ranks[y] == prediction_rank(found[y]));
        lemma_text_irreflexive(Seq::<char>::empty());
        if list[a].confidence == list[b].confidence {
            assert(ranks[x] == ranks[y]);
            assert(rows[x] < rows[y]);
        }
    }
    assert forall|a: int, b: int| 0 <= a < places.len() && 0 <= b < places.len() && a
        != b implies places[a] != places[b] by {
        assert(order[a] != order[b]);
        assert(order.contains(order[a]) && order.contains(order[b]));
        let x = order[a] as int;
        let y = order[b] as int;
        if x < y {
            assert(rows[x] < rows[y]);
        } else {
            assert(rows[y] < rows[x]);
        }
    }
    assert forall|i: int|
        0 <= i < labels.len() && is_predicted(labels, confidences, options, i) implies #[trigger]
    places.contains(i) by {
        assert(rows.contains(i));
        let r = choose|r: int| 0 <= r < rows.len() && rows[r] == i;
        assert(order.contains(r as usize));
        let k = choose|k: int| 0 <= k < order.len() && order[k] == r as usize;
        assert(places[k] == i);
    }
    places
}

/// Of the ratings at most one is predicted, and none unless ratings are asked
/// for. Where they are, and some rating has a finite confidence, one is, and no
/// rating has a higher confidence.
pub proof fn law_one_rating_is_predicted(
    labels: Seq<LabelView>,
    confidences: Seq<u32>,
    options: TaggerOptions,
)
    requires
        labels.len() == confidences.len(),
        labels.len() <= usize::MAX,
        options_error(options) is None,
    ensures
        ({
            let list = by_confidence(predicted(labels, confidences, options, labels.len()));
            &&& forall|k: int|
                0 <= k < list.len() && (#[trigger] list[k]).category == TagCategory::Rating
                    ==> options.include_rating
            &&& forall|a: int, b: int|
                0 <= a < list.len() && 0 <= b < list.len() && (#[trigger] list[a]).category
                    == TagCategory::Rating && (#[trigger] list[b]).category == TagCategory::Rating
                    ==> a == b
            &&& forall|k: int, i: int|
                0 <= k < list.len() && (#[trigger] list[k]).category == TagCategory::Rating && 0
                    <= i < labels.len() && (#[trigger] labels[i]).category == TagCategory::Rating
                    && confidences[i] / 0x80_0000 % 256 != 255 ==> total_order(confidences[i])
                    <= total_order(list[k].confidence)
            &&& forall|i: int|
                options.include_rating && 0 <= i < labels.len() && (#[trigger] labels[i]).category
                    == TagCategory::Rating && confidences[i] / 0x80_0000 % 256 != 255
                    ==> exists|k: int|
                    0 <= k < list.len() && (#[trigger] list[k]).category == TagCategory::Rating
        }),
{
    let found = predicted(labels, confidences, options, labels.len());
    let rows = lemma_predicted(labels, confidences, options, labels.len());
    let ranks = prediction_ranks(found);
    let order = arrangement(ranks, true);
    let list = by_confidence(found);
    let n = labels.len() as int;
    lemma_arrangement_exists(ranks, true);
    lemma_arrangement_permutes(order, ranks, true);
    assert forall|k: int| 0 <= k < list.len() implies {
        &&& #[trigger] list[k] == prediction_at(labels, confidences, rows[order[k] as int])
        &&& 0 <= order[k] < rows.len()
        &&& is_predicted(labels, confidences, options, rows[order[k] as int])
    } by {
        assert(order.contains(order[k]));
        assert(list[k] == found[order[k] as int]);
    }
    assert forall|a: int, b: int|
        0 <= a < list.len() && 0 <= b < list.len() && (#[trigger] list[a]).category
            == TagCategory::Rating && (#[trigger] list[b]).category == TagCategory::Rating implies a
        == b by {
        let x = order[a] as int;
        let y = order[b] as int;
        lemma_one_best_rating(labels, confidences, rows[x], rows[y]);
        if x < y {
            assert(rows[x] < rows[y]);
        } else if y < x {
            assert(rows[y] < rows[x]);
        }
    }
    assert forall|k: int, i: int|
        0 <= k < list.len() && (#[trigger] list[k]).category == TagCategory::Rating && 0 <= i < n
            && (#[trigger] labels[i]).category == TagCategory::Rating && confidences[i] / 0x80_0000
            % 256 != 255 implies total_order(confidences[i]) <= total_order(
        list[k].confidence,
    ) by {
        law_numbers_are_ordered(confidences[i], 0);
        assert(is_rated(labels, confidences, i));
        assert(is_best_rating(labels, confidences, n, rows[order[k] as int]));
    }
    assert forall|i: int|
        options.include_rating && 0 <= i < n && (#[trigger] labels[i]).category
            == TagCategory::Rating && confidences[i] / 0x80_0000 % 256
            != 255 implies exists|k: int|
        0 <= k < list.len() && (#[trigger] list[k]).category == TagCategory::Rating by {
        law_numbers_are_ordered(confidences[i], 0);
        assert(is_rated(labels, confidences, i));
        let best = lemma_some_best_rating(labels, confidences, n, i);
        assert(is_predicted(labels, confidences, options, best));
        assert(rows.contains(best));
        let r = choose|r: int| 0 <= r < rows.len() && rows[r] == best;
        assert(order.contains(r as usize));
        let k = choose|k: int| 0 <= k < order.len() && order[k] == r as usize;
        assert(list[k] == prediction_at(labels, confidences, best));
    }
}

/// Among the first `count` labels one rating is the best, where there is a rating.
proof fn lemma_some_best_rating(
    labels: Seq<LabelView>,
    confidences: Seq<u32>,
    count: int,
    i: int,
) -> (best: int)
    requires
        0 <= i < count,
        is_rated(labels, confidences, i),
    ensures
        is_best_rating(labels, confidences, count, best),
    decreases count,
{
    let last = count - 1;
    if exists|j: int| 0 <= j < last && is_rated(labels, confidences, j) {
        let j = choose|j: int| 0 <= j < last && is_rated(labels, confidences, j);
        let before = lemma_some_best_rating(labels, confidences, last, j);
        if is_rated(labels, confidences, last) && total_order(confidences[last]) >= total_order(
            confidences[before],
        ) {
            last
        } else {
            before
        }
    } else {
        last
    }
}

/// A threshold that is raised predicts nothing new.
pub proof fn law_higher_threshold_predicts_less(
    labels: Seq<LabelView>,
    confidences: Seq<u32>,
    lower: TaggerOptions,
    higher: TaggerOptions,
    prediction: PredictionView,
)
    requires
        labels.len() == confidences.len(),
        lower.general_threshold <= higher.general_threshold <= ONE,
        lower.character_threshold <= higher.character_threshold <= ONE,
        lower.include_rating == higher.include_rating,
        predicted(labels, confidences, higher, labels.len()).contains(prediction),
    ensures
        predicted(labels, confidences, lower, labels.len()).contains(prediction),
{
    let fewer = predicted(labels, confidences, higher, labels.len());
    let more = predicted(labels, confidences, lower, labels.len());
    let a = lemma_predicted(labels, confidences, higher, labels.len());
    let b = lemma_predicted(labels, confidences, lower, labels.len());
    let k = choose|k: int| 0 <= k < fewer.len() && fewer[k] == prediction;
    let i = a[k];
    assert(fewer[k] == prediction_at(labels, confidences, i));
    assert(is_predicted(labels, confidences, lower, i));
    assert(b.contains(i));
    let j = choose|j: int| 0 <= j < b.len() && b[j] == i;
    assert(more[j] == prediction_at(labels, confidences, i));
}

/// A threshold is brought between zero and one: below zero it becomes zero, above
/// one it becomes one, and anything else, what is no number among it, stays. Of the
/// settings nothing else changes.
pub proof fn law_thresholds_are_clamped(bits: u32, settings: PreferencesView)
    ensures
        bits <= ONE || bits == MINUS_ZERO ==> clamped(bits) == bits,
        ONE < bits <= INFINITY ==> clamped(bits) == ONE,
        MINUS_ZERO < bits <= MINUS_ZERO + INFINITY ==> clamped(bits) == 0,
        INFINITY < bits < MINUS_ZERO || MINUS_ZERO + INFINITY < bits ==> clamped(bits) == bits,
        ranged(settings).general == clamped(settings.general),
        ranged(settings).character == clamped(settings.character),
        ranged(settings) == (PreferencesView {
            general: ranged(settings).general,
            character: ranged(settings).character,
            ..settings
        }),
{
}

// ----- Labels --------------------------------------------------------------

/// The category that a field of a label file stands for.
pub open spec fn is_code(field: Seq<char>, category: TagCategory) -> bool {
    match category {
        TagCategory::Rating => field == "9"@,
        TagCategory::General => field == "0"@,
        TagCategory::Character => field == "4"@,
    }
}

/// Whether a row of a label file has a name that is not blank and a code that
/// stands for a category.
pub open spec fn is_good_row(row: Option<Seq<Seq<char>>>) -> bool {
    &&& row matches Some(fields)
    &&& fields.len() >= 3
    &&& trimmed(fields[1]).len() > 0
    &&& fields[2] == "9"@ || fields[2] == "0"@ || fields[2] == "4"@
}

/// A label file is read if and only if its header names the identifier, the name
/// and the category, it has a row, and every row is good. Each row gives one
/// label, in order, with the name and the category that it says.
pub proof fn law_labels_are_read(
    result: Result<Vec<Label>, LabelError>,
    header: Option<Seq<Seq<char>>>,
    rows: Seq<Option<Seq<Seq<char>>>>,
)
    requires
        is_label_result(result, header, rows),
    ensures
        result is Ok <==> {
            &&& header matches Some(names)
            &&& names.len() >= 3
            &&& names[0] == "tag_id"@ && names[1] == "name"@ && names[2] == "category"@
            &&& rows.len() > 0
            &&& forall|i: int| 0 <= i < rows.len() ==> is_good_row(#[trigger] rows[i])
        },
        result matches Ok(labels) ==> {
            &&& labels@.len() == rows.len()
            &&& forall|i: int|
                0 <= i < rows.len() ==> {
                    &&& (#[trigger] labels@[i]).name@ == trimmed(rows[i]->0[1])
                    &&& is_code(rows[i]->0[2], labels@[i].category)
                }
        },
{
    assert forall|i: int| 0 <= i < rows.len() implies (is_label_row(#[trigger] rows[i])
        <==> is_good_row(rows[i])) by {}
    if result is Ok {
        let labels = result->Ok_0;
        assert(label_views(labels@).len() == rows.len());
        assert(labels@.len() == rows.len());
        assert forall|i: int| 0 <= i < rows.len() implies {
            &&& (#[trigger] labels@[i]).name@ == trimmed(rows[i]->0[1])
            &&& is_code(rows[i]->0[2], labels@[i].category)
        } by {
            assert(is_label_row(rows[i]));
            assert(label_views(labels@)[i] == row_label(rows[i]));
            assert(label_views(labels@)[i] == labels@[i]@);
        }
        assert forall|i: int| 0 <= i < rows.len() implies is_good_row(#[trigger] rows[i]) by {
            assert(is_label_row(rows[i]));
        }
    } else {
        if forall|i: int| 0 <= i < rows.len() ==> is_good_row(#[trigger] rows[i]) {
            assert(forall|i: int| 0 <= i < rows.len() ==> is_label_row(#[trigger] rows[i]));
        }
    }
}

/// The first row that is not good is the one that a refusal of a label file with
/// the right header tells of.
pub proof fn law_first_bad_row_is_told(
    error: LabelError,
    header: Seq<Seq<char>>,
    rows: Seq<Option<Seq<Seq<char>>>>,
    i: int,
)
    requires
        is_label_result(Err(error), Some(header), rows),
        is_label_header(header),
        0 <= i < rows.len(),
        !is_good_row(rows[i]),
        forall|k: int| 0 <= k < i ==> is_good_row(#[trigger] rows[k]),
    ensures
        match error {
            LabelError::InvalidRow(n) => n == i && rows[i] is None,
            LabelError::NoName => rows[i] is Some && rows[i]->0.len() < 2,
            LabelError::EmptyName(n) => n == i && rows[i] is Some && trimmed(rows[i]->0[1]).len()
                == 0,
            LabelError::NoCategory(n) => n == i && rows[i] is Some && rows[i]->0.len() == 2,
            LabelError::UnsupportedCategory(value, n) => n == i && rows[i] is Some && value@
                == rows[i]->0[2],
            _ => false,
        },
{
    assert forall|k: int| 0 <= k < rows.len() implies (is_label_row(#[trigger] rows[k])
        <==> is_good_row(rows[k])) by {}
    assert(!is_label_row(rows[i]));
    let at = choose|at: int|
        {
            &&& 0 <= at < rows.len()
            &&& !is_label_row(#[trigger] rows[at])
            &&& forall|k: int| 0 <= k < at ==> is_label_row(#[trigger] rows[k])
            &&& is_row_error(error, rows[at], at)
        };
    if at < i {
        assert(is_good_row(rows[at]));
    } else if i < at {
        assert(is_label_row(rows[i]));
    }
}

/// A row of a label file is told of by its line, where the header is the first.
pub proof fn law_rows_are_counted_from_the_header(row: usize)
    ensures
        number_of(file_row(row)) == row + 2,
{
    law_decimal_stands_for_its_number((row + 2) as nat);
}

} // verus!
