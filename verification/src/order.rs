//! The order of texts, and the arrangement of a list by rank.
//!
//! Texts are ordered by the code points of their characters, the first
//! difference deciding. A list is arranged by ranks; entries of equal rank keep
//! the order in which they stand.

use vstd::prelude::*;

use crate::tags::lemma_contains_push;
use crate::text::{chars_of, group_texts, same_text, texts};

verus! {

// ----- Texts ---------------------------------------------------------------

/// Whether `a` comes before `b`.
pub open spec fn text_before(a: Seq<char>, b: Seq<char>) -> bool
    decreases a.len(),
{
    if b.len() == 0 {
        false
    } else if a.len() == 0 {
        true
    } else {
        a[0] < b[0] || (a[0] == b[0] && text_before(a.drop_first(), b.drop_first()))
    }
}

/// No text comes before itself.
pub proof fn lemma_text_irreflexive(a: Seq<char>)
    ensures
        !text_before(a, a),
    decreases a.len(),
{
    if a.len() > 0 {
        lemma_text_irreflexive(a.drop_first());
    }
}

/// The order of texts is transitive.
pub proof fn lemma_text_transitive(a: Seq<char>, b: Seq<char>, c: Seq<char>)
    requires
        text_before(a, b),
        text_before(b, c),
    ensures
        text_before(a, c),
    decreases a.len(),
{
    if a.len() > 0 && a[0] == b[0] && b[0] == c[0] {
        lemma_text_transitive(a.drop_first(), b.drop_first(), c.drop_first());
    }
}

/// Of two different texts one comes before the other.
pub proof fn lemma_text_total(a: Seq<char>, b: Seq<char>)
    ensures
        a == b || text_before(a, b) || text_before(b, a),
    decreases a.len(),
{
    if a.len() == 0 || b.len() == 0 {
        assert(a.len() == 0 && b.len() == 0 ==> a =~= b);
    } else if a[0] == b[0] {
        lemma_text_total(a.drop_first(), b.drop_first());
        if a.drop_first() == b.drop_first() {
            assert(a =~= seq![a[0]] + a.drop_first());
            assert(b =~= seq![b[0]] + b.drop_first());
        }
    }
}

/// Where one of two things stands with respect to the other.
#[derive(Clone, Copy, Debug, PartialEq, Eq, Structural)]
pub enum Standing {
    Before,
    Same,
    After,
}

/// How `a` stands to `b` in the order of texts.
pub open spec fn text_standing(a: Seq<char>, b: Seq<char>) -> Standing {
    if a == b {
        Standing::Same
    } else if text_before(a, b) {
        Standing::Before
    } else {
        Standing::After
    }
}

/// How `a` stands to `b` in the order of texts.
pub fn weigh_chars(a: &Vec<char>, b: &Vec<char>) -> (standing: Standing)
    ensures
        standing == text_standing(a@, b@),
{
    let mut i: usize = 0;
    assert(a@.skip(0) =~= a@);
    assert(b@.skip(0) =~= b@);
    while i < a.len() && i < b.len() && a[i] == b[i]
        invariant
            i <= a@.len(),
            i <= b@.len(),
            a@.take(i as int) == b@.take(i as int),
            text_before(a@, b@) == text_before(a@.skip(i as int), b@.skip(i as int)),
        decreases a.len() - i,
    {
        assert(a@.skip(i as int).drop_first() =~= a@.skip(i + 1));
        assert(b@.skip(i as int).drop_first() =~= b@.skip(i + 1));
        assert(a@.take(i + 1) =~= a@.take(i as int).push(a@[i as int]));
        assert(b@.take(i + 1) =~= b@.take(i as int).push(b@[i as int]));
        i = i + 1;
    }
    if i < a.len() {
        if i < b.len() {
            if a[i] < b[i] {
                Standing::Before
            } else {
                Standing::After
            }
        } else {
            Standing::After
        }
    } else if i < b.len() {
        Standing::Before
    } else {
        assert(a@ =~= a@.take(i as int));
        assert(b@ =~= b@.take(i as int));
        Standing::Same
    }
}

/// Whether `a` comes before `b`.
pub fn comes_before(a: &str, b: &str) -> (yes: bool)
    ensures
        yes == text_before(a@, b@),
{
    proof {
        lemma_text_irreflexive(a@);
    }
    let standing = weigh_chars(&chars_of(a), &chars_of(b));
    standing == Standing::Before
}

/// The texts stand in order, none of them twice.
pub open spec fn strictly_ordered(list: Seq<Seq<char>>) -> bool {
    forall|i: int, j: int| 0 <= i < j < list.len() ==> text_before(#[trigger] list[i], #[trigger] list[j])
}

/// The direction of an order.
#[derive(Clone, Copy, Debug, PartialEq, Eq, Structural)]
pub enum SortDirection {
    Ascending,
    Descending,
}

// ----- Ranks ---------------------------------------------------------------

/// What an entry of a list is arranged by: a number, then two texts.
pub struct RankView {
    pub number: int,
    pub first: Seq<char>,
    pub second: Seq<char>,
}

/// What an entry of a list is arranged by: a number, then two texts.
pub struct Rank {
    pub number: i128,
    pub first: Vec<char>,
    pub second: Vec<char>,
}

impl View for Rank {
    type V = RankView;

    open spec fn view(&self) -> RankView {
        RankView { number: self.number as int, first: self.first@, second: self.second@ }
    }
}

/// The ranks that a vector holds.
pub open spec fn rank_views(ranks: Seq<Rank>) -> Seq<RankView> {
    ranks.map_values(|r: Rank| r@)
}

/// Whether rank `a` comes before rank `b`.
pub open spec fn rank_before(a: RankView, b: RankView) -> bool {
    a.number < b.number || (a.number == b.number && (text_before(a.first, b.first) || (a.first
        == b.first && text_before(a.second, b.second))))
}

/// Whether the entry at place `i` goes before the one at place `j`: by rank,
/// and by place where the ranks are equal.
pub open spec fn goes_before(ranks: Seq<RankView>, descending: bool, i: int, j: int) -> bool {
    if ranks[i] == ranks[j] {
        i < j
    } else if descending {
        rank_before(ranks[j], ranks[i])
    } else {
        rank_before(ranks[i], ranks[j])
    }
}

proof fn lemma_rank_total(a: RankView, b: RankView)
    ensures
        a == b || rank_before(a, b) || rank_before(b, a),
        !rank_before(a, a),
{
    lemma_text_total(a.first, b.first);
    lemma_text_total(a.second, b.second);
    lemma_text_irreflexive(a.first);
    lemma_text_irreflexive(a.second);
}

proof fn lemma_rank_transitive(a: RankView, b: RankView, c: RankView)
    requires
        rank_before(a, b),
        rank_before(b, c),
    ensures
        rank_before(a, c),
        !rank_before(b, a),
{
    if text_before(a.first, b.first) && text_before(b.first, c.first) {
        lemma_text_transitive(a.first, b.first, c.first);
    }
    if text_before(a.second, b.second) && text_before(b.second, c.second) {
        lemma_text_transitive(a.second, b.second, c.second);
    }
    lemma_rank_asymmetric(a, b);
}

/// Of two ranks only one comes before the other.
pub proof fn lemma_rank_asymmetric(a: RankView, b: RankView)
    requires
        rank_before(a, b),
    ensures
        !rank_before(b, a),
{
    if text_before(a.first, b.first) && text_before(b.first, a.first) {
        lemma_text_transitive(a.first, b.first, a.first);
    }
    if text_before(a.second, b.second) && text_before(b.second, a.second) {
        lemma_text_transitive(a.second, b.second, a.second);
    }
    lemma_text_irreflexive(a.first);
    lemma_text_irreflexive(a.second);
}

proof fn lemma_goes_before_total(ranks: Seq<RankView>, descending: bool, i: int, j: int)
    ensures
        i == j || goes_before(ranks, descending, i, j) || goes_before(ranks, descending, j, i),
        !(goes_before(ranks, descending, i, j) && goes_before(ranks, descending, j, i)),
{
    lemma_rank_total(ranks[i], ranks[j]);
    if ranks[i] != ranks[j] {
        if rank_before(ranks[i], ranks[j]) {
            lemma_rank_asymmetric(ranks[i], ranks[j]);
        } else {
            lemma_rank_asymmetric(ranks[j], ranks[i]);
        }
    }
}

proof fn lemma_goes_before_transitive(
    ranks: Seq<RankView>,
    descending: bool,
    i: int,
    j: int,
    k: int,
)
    requires
        goes_before(ranks, descending, i, j),
        goes_before(ranks, descending, j, k),
    ensures
        goes_before(ranks, descending, i, k),
{
    if ranks[i] != ranks[j] && ranks[j] != ranks[k] {
        if descending {
            lemma_rank_transitive(ranks[k], ranks[j], ranks[i]);
            lemma_rank_total(ranks[i], ranks[k]);
        } else {
            lemma_rank_transitive(ranks[i], ranks[j], ranks[k]);
            lemma_rank_total(ranks[i], ranks[k]);
        }
    }
}

// ----- Arrangements --------------------------------------------------------

/// Each place of `order` goes before the ones behind it.
pub open spec fn in_order(order: Seq<usize>, ranks: Seq<RankView>, descending: bool) -> bool {
    forall|i: int, j: int|
        0 <= i < j < order.len() ==> goes_before(
            ranks,
            descending,
            #[trigger] order[i] as int,
            #[trigger] order[j] as int,
        )
}

/// `order` lists every place of `ranks` once, in the order of the ranks.
pub open spec fn is_arrangement(order: Seq<usize>, ranks: Seq<RankView>, descending: bool) -> bool {
    &&& order.len() == ranks.len()
    &&& forall|x: usize| #[trigger] order.contains(x) <==> x < ranks.len()
    &&& in_order(order, ranks, descending)
}

/// The order in which the places of `ranks` are arranged.
pub open spec fn arrangement(ranks: Seq<RankView>, descending: bool) -> Seq<usize> {
    choose|order: Seq<usize>| is_arrangement(order, ranks, descending)
}

/// The entries of `list` in the given order of their places.
pub open spec fn arranged<T>(list: Seq<T>, order: Seq<usize>) -> Seq<T> {
    Seq::new(order.len(), |i: int| list[order[i] as int])
}

proof fn lemma_arrangement_same_prefix(
    a: Seq<usize>,
    b: Seq<usize>,
    ranks: Seq<RankView>,
    descending: bool,
    n: int,
)
    requires
        is_arrangement(a, ranks, descending),
        is_arrangement(b, ranks, descending),
        0 <= n <= ranks.len(),
    ensures
        forall|i: int| 0 <= i < n ==> a[i] == b[i],
    decreases n,
{
    if n > 0 {
        let i = n - 1;
        lemma_arrangement_same_prefix(a, b, ranks, descending, i);
        if a[i] != b[i] {
            assert(a.contains(a[i]));
            assert(b.contains(a[i]));
            let p = choose|p: int| 0 <= p < b.len() && b[p] == a[i];
            assert(b.contains(b[i]));
            assert(a.contains(b[i]));
            let q = choose|q: int| 0 <= q < a.len() && a[q] == b[i];
            if p < i {
                assert(a[p] == b[p]);
                assert(goes_before(ranks, descending, a[p] as int, a[i] as int));
                lemma_goes_before_total(ranks, descending, a[p] as int, a[i] as int);
                assert(false);
            }
            if q < i {
                assert(a[q] == b[q]);
                assert(goes_before(ranks, descending, b[q] as int, b[i] as int));
                lemma_goes_before_total(ranks, descending, b[q] as int, b[i] as int);
                assert(false);
            }
            assert(goes_before(ranks, descending, b[i] as int, b[p] as int));
            assert(goes_before(ranks, descending, a[i] as int, a[q] as int));
            lemma_goes_before_total(ranks, descending, a[i] as int, b[i] as int);
        }
    }
}

/// There is at most one arrangement.
pub proof fn lemma_arrangement_unique(
    a: Seq<usize>,
    b: Seq<usize>,
    ranks: Seq<RankView>,
    descending: bool,
)
    requires
        is_arrangement(a, ranks, descending),
        is_arrangement(b, ranks, descending),
    ensures
        a == b,
{
    lemma_arrangement_same_prefix(a, b, ranks, descending, ranks.len() as int);
    assert(a =~= b);
}

/// Where `x` is put into `order`: behind the last place that goes before it.
spec fn place_for(order: Seq<usize>, ranks: Seq<RankView>, descending: bool, x: usize) -> int
    decreases order.len(),
{
    if order.len() == 0 || goes_before(ranks, descending, order.last() as int, x as int) {
        order.len() as int
    } else {
        place_for(order.drop_last(), ranks, descending, x)
    }
}

proof fn lemma_place_for(order: Seq<usize>, ranks: Seq<RankView>, descending: bool, x: usize)
    requires
        in_order(order, ranks, descending),
        !order.contains(x),
    ensures
        0 <= place_for(order, ranks, descending, x) <= order.len(),
        forall|i: int|
            0 <= i < place_for(order, ranks, descending, x) ==> goes_before(
                ranks,
                descending,
                #[trigger] order[i] as int,
                x as int,
            ),
        forall|i: int|
            place_for(order, ranks, descending, x) <= i < order.len() ==> goes_before(
                ranks,
                descending,
                x as int,
                #[trigger] order[i] as int,
            ),
    decreases order.len(),
{
    if order.len() > 0 {
        let last = order.last();
        assert(order.contains(last));
        if goes_before(ranks, descending, last as int, x as int) {
            assert forall|i: int| 0 <= i < order.len() implies goes_before(
                ranks,
                descending,
                #[trigger] order[i] as int,
                x as int,
            ) by {
                if i < order.len() - 1 {
                    lemma_goes_before_transitive(
                        ranks,
                        descending,
                        order[i] as int,
                        last as int,
                        x as int,
                    );
                }
            }
        } else {
            lemma_goes_before_total(ranks, descending, last as int, x as int);
            let shorter = order.drop_last();
            assert forall|y: usize| shorter.contains(y) implies order.contains(y) by {
                let k = choose|k: int| 0 <= k < shorter.len() && shorter[k] == y;
                assert(order[k] == y);
            }
            lemma_place_for(shorter, ranks, descending, x);
            assert forall|i: int|
                place_for(shorter, ranks, descending, x) <= i < order.len() implies goes_before(
                ranks,
                descending,
                x as int,
                #[trigger] order[i] as int,
            ) by {
                if i < order.len() - 1 {
                    assert(shorter[i] == order[i]);
                }
            }
            assert forall|i: int|
                0 <= i < place_for(shorter, ranks, descending, x) implies goes_before(
                ranks,
                descending,
                #[trigger] order[i] as int,
                x as int,
            ) by {
                assert(shorter[i] == order[i]);
            }
        }
    }
}

proof fn lemma_arrangement_of_first(ranks: Seq<RankView>, descending: bool, n: nat) -> (order: Seq<
    usize,
>)
    requires
        n <= ranks.len() <= usize::MAX,
    ensures
        order.len() == n,
        forall|x: usize| #[trigger] order.contains(x) <==> x < n,
        in_order(order, ranks, descending),
    decreases n,
{
    if n == 0 {
        Seq::<usize>::empty()
    } else {
        let x = (n - 1) as usize;
        let shorter = lemma_arrangement_of_first(ranks, descending, (n - 1) as nat);
        let p = place_for(shorter, ranks, descending, x);
        lemma_place_for(shorter, ranks, descending, x);
        let order = shorter.insert(p, x);
        assert forall|y: usize| #[trigger] order.contains(y) <==> y < n by {
            if y < n - 1 {
                assert(shorter.contains(y));
                let k = choose|k: int| 0 <= k < shorter.len() && shorter[k] == y;
                assert(order[if k < p { k } else { k + 1 }] == y);
            }
            assert(order[p] == x);
            if order.contains(y) && y != x {
                let k = choose|k: int| 0 <= k < order.len() && order[k] == y;
                assert(shorter[if k < p { k } else { k - 1 }] == y);
                assert(shorter.contains(y));
            }
        }
        order
    }
}

/// There is an arrangement of every list of ranks.
pub proof fn lemma_arrangement_exists(ranks: Seq<RankView>, descending: bool)
    requires
        ranks.len() <= usize::MAX,
    ensures
        is_arrangement(arrangement(ranks, descending), ranks, descending),
{
    let order = lemma_arrangement_of_first(ranks, descending, ranks.len());
    assert(is_arrangement(order, ranks, descending));
}

// ----- Arranging -----------------------------------------------------------

fn rank_precedes(a: &Rank, b: &Rank) -> (standing: Standing)
    ensures
        standing is Same <==> a@ == b@,
        standing is Before <==> rank_before(a@, b@),
{
    proof {
        lemma_rank_total(a@, b@);
        lemma_text_total(a@.first, b@.first);
        lemma_text_irreflexive(a@.first);
        lemma_text_irreflexive(a@.second);
    }
    if a.number < b.number {
        Standing::Before
    } else if a.number > b.number {
        Standing::After
    } else {
        match weigh_chars(&a.first, &b.first) {
            Standing::Before => Standing::Before,
            Standing::After => Standing::After,
            Standing::Same => weigh_chars(&a.second, &b.second),
        }
    }
}

fn place_precedes(ranks: &Vec<Rank>, descending: bool, i: usize, j: usize) -> (yes: bool)
    requires
        i < ranks@.len(),
        j < ranks@.len(),
    ensures
        yes == goes_before(rank_views(ranks@), descending, i as int, j as int),
{
    let ghost views = rank_views(ranks@);
    proof {
        lemma_goes_before_total(views, descending, i as int, j as int);
        lemma_rank_total(views[i as int], views[j as int]);
        lemma_rank_total(views[j as int], views[i as int]);
    }
    match rank_precedes(&ranks[i], &ranks[j]) {
        Standing::Same => i < j,
        Standing::Before => {
            proof {
                lemma_rank_asymmetric(views[i as int], views[j as int]);
            }
            !descending
        },
        Standing::After => descending,
    }
}

/// Some place of `order` below `n` holds `x`.
spec fn among(order: Seq<usize>, n: int, x: usize) -> bool {
    exists|k: int| 0 <= k < n && #[trigger] order[k] == x
}

/// Everything in `a` goes before what `b` holds from place `n` on.
spec fn all_before(
    a: Seq<usize>,
    b: Seq<usize>,
    n: int,
    ranks: Seq<RankView>,
    descending: bool,
) -> bool {
    forall|i: int, j: int|
        0 <= i < a.len() && n <= j < b.len() ==> goes_before(
            ranks,
            descending,
            #[trigger] a[i] as int,
            #[trigger] b[j] as int,
        )
}

fn merge(ranks: &Vec<Rank>, descending: bool, left: &Vec<usize>, right: &Vec<usize>) -> (order: Vec<
    usize,
>)
    requires
        forall|k: int| 0 <= k < left@.len() ==> left@[k] < ranks@.len(),
        forall|k: int| 0 <= k < right@.len() ==> right@[k] < ranks@.len(),
        forall|x: usize| left@.contains(x) ==> !right@.contains(x),
        in_order(left@, rank_views(ranks@), descending),
        in_order(right@, rank_views(ranks@), descending),
        left@.len() + right@.len() <= usize::MAX,
    ensures
        order@.len() == left@.len() + right@.len(),
        forall|x: usize| #[trigger] order@.contains(x) <==> left@.contains(x) || right@.contains(x),
        in_order(order@, rank_views(ranks@), descending),
{
    let ghost views = rank_views(ranks@);
    let mut order: Vec<usize> = Vec::new();
    let mut i: usize = 0;
    let mut j: usize = 0;
    while i < left.len() || j < right.len()
        invariant
            views == rank_views(ranks@),
            forall|k: int| 0 <= k < left@.len() ==> left@[k] < ranks@.len(),
            forall|k: int| 0 <= k < right@.len() ==> right@[k] < ranks@.len(),
            forall|x: usize| left@.contains(x) ==> !right@.contains(x),
            in_order(left@, views, descending),
            in_order(right@, views, descending),
            i <= left@.len(),
            j <= right@.len(),
            left@.len() + right@.len() <= usize::MAX,
            order@.len() == i + j,
            in_order(order@, views, descending),
            all_before(order@, left@, i as int, views, descending),
            all_before(order@, right@, j as int, views, descending),
            forall|x: usize| #[trigger]
                among(order@, order@.len() as int, x) <==> among(left@, i as int, x) || among(
                    right@,
                    j as int,
                    x,
                ),
        decreases left@.len() - i + right@.len() - j,
    {
        let ghost before = order@;
        let from_left: bool = if i == left.len() {
            false
        } else if j == right.len() {
            true
        } else {
            place_precedes(ranks, descending, left[i], right[j])
        };
        if from_left {
            let x: usize = left[i];
            proof {
                assert forall|k: int| j <= k < right@.len() implies goes_before(
                    views,
                    descending,
                    x as int,
                    #[trigger] right@[k] as int,
                ) by {
                    if k > j {
                        assert(goes_before(views, descending, right@[j as int] as int, right@[k] as int));
                        lemma_goes_before_transitive(
                            views,
                            descending,
                            x as int,
                            right@[j as int] as int,
                            right@[k] as int,
                        );
                    }
                }
            }
            order.push(x);
            i = i + 1;
            proof {
                assert forall|y: usize| #[trigger]
                    among(order@, order@.len() as int, y) <==> among(left@, i as int, y) || among(
                        right@,
                        j as int,
                        y,
                    ) by {
                    lemma_among_push(before, x, y);
                    lemma_among_next(left@, i - 1, y);
                    assert(among(before, before.len() as int, y) <==> among(left@, i - 1, y) || among(
                        right@,
                        j as int,
                        y,
                    ));
                }
            }
        } else {
            let x: usize = right[j];
            proof {
                if i < left@.len() {
                    assert(left@.contains(left@[i as int]));
                    assert(right@.contains(x));
                    lemma_goes_before_total(views, descending, left@[i as int] as int, x as int);
                }
                assert forall|k: int| i <= k < left@.len() implies goes_before(
                    views,
                    descending,
                    x as int,
                    #[trigger] left@[k] as int,
                ) by {
                    if k > i {
                        assert(goes_before(views, descending, left@[i as int] as int, left@[k] as int));
                        lemma_goes_before_transitive(
                            views,
                            descending,
                            x as int,
                            left@[i as int] as int,
                            left@[k] as int,
                        );
                    }
                }
            }
            order.push(x);
            j = j + 1;
            proof {
                assert forall|y: usize| #[trigger]
                    among(order@, order@.len() as int, y) <==> among(left@, i as int, y) || among(
                        right@,
                        j as int,
                        y,
                    ) by {
                    lemma_among_push(before, x, y);
                    lemma_among_next(right@, j - 1, y);
                    assert(among(before, before.len() as int, y) <==> among(left@, i as int, y) || among(
                        right@,
                        j - 1,
                        y,
                    ));
                }
            }
        }
    }
    proof {
        assert forall|x: usize| #[trigger] order@.contains(x) <==> left@.contains(x)
            || right@.contains(x) by {
            lemma_among_contains(order@, x);
            lemma_among_contains(left@, x);
            lemma_among_contains(right@, x);
        }
    }
    order
}

proof fn lemma_among_contains(order: Seq<usize>, x: usize)
    ensures
        among(order, order.len() as int, x) <==> order.contains(x),
{
}

proof fn lemma_among_push(order: Seq<usize>, last: usize, x: usize)
    ensures
        among(order.push(last), order.len() as int + 1, x) <==> among(order, order.len() as int, x) || x
            == last,
{
    if among(order, order.len() as int, x) {
        let k = choose|k: int| 0 <= k < order.len() && #[trigger] order[k] == x;
        assert(order.push(last)[k] == x);
    }
    assert(order.push(last)[order.len() as int] == last);
    if among(order.push(last), order.len() as int + 1, x) && x != last {
        let k = choose|k: int| 0 <= k < order.len() + 1 && #[trigger] order.push(last)[k] == x;
        assert(order[k] == x);
    }
}

proof fn lemma_among_next(order: Seq<usize>, n: int, x: usize)
    requires
        0 <= n < order.len(),
    ensures
        among(order, n + 1, x) <==> among(order, n, x) || order[n] == x,
{
}

fn arrange_range(ranks: &Vec<Rank>, descending: bool, from: usize, to: usize) -> (order: Vec<usize>)
    requires
        from <= to <= ranks@.len(),
    ensures
        order@.len() == to - from,
        forall|x: usize| #[trigger] order@.contains(x) <==> from <= x < to,
        in_order(order@, rank_views(ranks@), descending),
    decreases to - from,
{
    if to - from == 0 {
        Vec::new()
    } else if to - from == 1 {
        let mut order: Vec<usize> = Vec::new();
        order.push(from);
        assert(order@[0] == from);
        order
    } else {
        let middle: usize = from + (to - from) / 2;
        let left = arrange_range(ranks, descending, from, middle);
        let right = arrange_range(ranks, descending, middle, to);
        assert forall|k: int| 0 <= k < left@.len() implies left@[k] < ranks@.len() by {
            assert(left@.contains(left@[k]));
        }
        assert forall|k: int| 0 <= k < right@.len() implies right@[k] < ranks@.len() by {
            assert(right@.contains(right@[k]));
        }
        merge(ranks, descending, &left, &right)
    }
}

/// Arranges the places of `ranks`.
pub fn arrange(ranks: &Vec<Rank>, descending: bool) -> (order: Vec<usize>)
    ensures
        order@ == arrangement(rank_views(ranks@), descending),
        is_arrangement(order@, rank_views(ranks@), descending),
{
    let order = arrange_range(ranks, descending, 0, ranks.len());
    proof {
        let views = rank_views(ranks@);
        assert(is_arrangement(order@, views, descending));
        lemma_arrangement_unique(order@, arrangement(views, descending), views, descending);
    }
    order
}

/// Whether `order` lists each of the places `0..n` once.
pub open spec fn is_permutation(order: Seq<usize>, n: nat) -> bool {
    &&& order.len() == n
    &&& order.no_duplicates()
    &&& forall|x: usize| #[trigger] order.contains(x) <==> x < n
}

/// An arrangement lists each place once.
pub proof fn lemma_arrangement_permutes(order: Seq<usize>, ranks: Seq<RankView>, descending: bool)
    requires
        is_arrangement(order, ranks, descending),
    ensures
        is_permutation(order, ranks.len()),
{
    assert forall|i: int, j: int| 0 <= i < order.len() && 0 <= j < order.len() && i != j implies order[i]
        != order[j] by {
        if i < j {
            assert(goes_before(ranks, descending, order[i] as int, order[j] as int));
        } else {
            assert(goes_before(ranks, descending, order[j] as int, order[i] as int));
        }
    }
}

/// To list the entries of a list in another order neither adds nor loses one.
pub proof fn lemma_arranged_multiset<T>(list: Seq<T>, order: Seq<usize>)
    requires
        is_permutation(order, list.len()),
    ensures
        arranged(list, order).to_multiset() == list.to_multiset(),
    decreases list.len(),
{
    broadcast use vstd::multiset::group_multiset_axioms;

    let result = arranged(list, order);
    if list.len() == 0 {
        assert(result =~= list);
    } else {
        let n = (list.len() - 1) as usize;
        if n != list.len() - 1 {
            lemma_permutation_bound(order, list.len());
        }
        assert(order.contains(n));
        let p = choose|p: int| 0 <= p < order.len() && order[p] == n;
        let rest = order.remove(p);
        let shorter = list.drop_last();
        assert(is_permutation(rest, shorter.len())) by {
            assert forall|x: usize| #[trigger] rest.contains(x) <==> x < shorter.len() by {
                if rest.contains(x) {
                    let k = choose|k: int| 0 <= k < rest.len() && rest[k] == x;
                    let at = if k < p {
                        k
                    } else {
                        k + 1
                    };
                    assert(order[at] == x);
                    assert(order.contains(x));
                    assert(x != n);
                }
                if x < shorter.len() {
                    assert(order.contains(x));
                    let k = choose|k: int| 0 <= k < order.len() && order[k] == x;
                    let at = if k < p {
                        k
                    } else {
                        k - 1
                    };
                    assert(rest[at] == x);
                }
            }
        }
        lemma_arranged_multiset(shorter, rest);
        assert forall|k: int| 0 <= k < rest.len() implies arranged(shorter, rest)[k]
            == result.remove(p)[k] by {
            assert(rest.contains(rest[k]));
        }
        assert(arranged(shorter, rest) =~= result.remove(p));
        vstd::seq_lib::to_multiset_remove(result, p);
        vstd::seq_lib::to_multiset_contains(result, result[p]);
        assert(result.contains(result[p]));
        assert(result[p] == list.last());
        vstd::seq_lib::to_multiset_build(shorter, list.last());
        assert(shorter.push(list.last()) =~= list);
        assert(result.to_multiset() =~= result.to_multiset().remove(result[p]).insert(result[p]));
    }
}

proof fn lemma_permutation_bound(order: Seq<usize>, n: nat)
    requires
        is_permutation(order, n),
    ensures
        n <= usize::MAX + 1,
{
    if n > usize::MAX + 1 {
        let first = order.take(usize::MAX + 2);
        assert(first.no_duplicates());
        lemma_distinct_bound(first, usize::MAX + 1);
    }
}

proof fn lemma_distinct_bound(list: Seq<usize>, bound: int)
    requires
        list.no_duplicates(),
        0 <= bound,
        forall|k: int| 0 <= k < list.len() ==> #[trigger] list[k] < bound,
    ensures
        list.len() <= bound,
    decreases bound,
{
    if bound == 0 {
        if list.len() > 0 {
            assert(list[0] < 0);
        }
    } else if exists|p: int| 0 <= p < list.len() && list[p] == bound - 1 {
        let p = choose|p: int| 0 <= p < list.len() && list[p] == bound - 1;
        let rest = list.remove(p);
        assert forall|k: int| 0 <= k < rest.len() implies #[trigger] rest[k] < bound - 1 by {
            let at = if k < p {
                k
            } else {
                k + 1
            };
            assert(rest[k] == list[at]);
            assert(list[at] != list[p]);
        }
        lemma_distinct_bound(rest, bound - 1);
    } else {
        lemma_distinct_bound(list, bound - 1);
    }
}

// ----- Ordered sets of texts -----------------------------------------------

/// Whether two lists hold the same texts.
pub open spec fn same_members(a: Seq<Seq<char>>, b: Seq<Seq<char>>) -> bool {
    forall|text: Seq<char>| #[trigger] a.contains(text) <==> b.contains(text)
}

/// The texts of a list in order, each of them once.
pub open spec fn sorted_set(list: Seq<Seq<char>>) -> Seq<Seq<char>> {
    choose|sorted: Seq<Seq<char>>| strictly_ordered(sorted) && same_members(sorted, list)
}

/// A list in strict order is determined by the texts that it holds.
pub proof fn lemma_ordered_unique(a: Seq<Seq<char>>, b: Seq<Seq<char>>)
    requires
        strictly_ordered(a),
        strictly_ordered(b),
        same_members(a, b),
    ensures
        a == b,
{
    lemma_ordered_same_prefix(a, b, a.len() as int);
    lemma_ordered_same_prefix(b, a, b.len() as int);
    assert(a =~= b);
}

proof fn lemma_ordered_same_prefix(a: Seq<Seq<char>>, b: Seq<Seq<char>>, n: int)
    requires
        strictly_ordered(a),
        strictly_ordered(b),
        same_members(a, b),
        0 <= n <= a.len(),
    ensures
        n <= b.len(),
        forall|i: int| 0 <= i < n ==> a[i] == b[i],
    decreases n,
{
    if n > 0 {
        let i = n - 1;
        lemma_ordered_same_prefix(a, b, i);
        assert(a.contains(a[i]));
        assert(b.contains(a[i]));
        let p = choose|p: int| 0 <= p < b.len() && b[p] == a[i];
        if p < i {
            assert(text_before(a[p], a[i]));
            lemma_text_irreflexive(a[i]);
        }
        assert(i < b.len());
        if a[i] != b[i] {
            assert(b.contains(b[i]));
            assert(a.contains(b[i]));
            let q = choose|q: int| 0 <= q < a.len() && a[q] == b[i];
            if q < i {
                assert(text_before(b[q], b[i]));
                lemma_text_irreflexive(b[i]);
            }
            assert(text_before(b[i], b[p]));
            assert(text_before(a[i], a[q]));
            lemma_text_transitive(a[i], b[i], a[i]);
            lemma_text_irreflexive(a[i]);
        }
    }
}

/// The rank of a text by itself.
pub open spec fn text_rank(text: Seq<char>) -> RankView {
    RankView { number: 0, first: text, second: Seq::<char>::empty() }
}

/// The texts of a list in order, each of them once.
pub fn sorted_unique(list: &Vec<String>) -> (sorted: Vec<String>)
    ensures
        texts(sorted@) == sorted_set(texts(list@)),
        strictly_ordered(texts(sorted@)),
        same_members(texts(sorted@), texts(list@)),
{
    broadcast use group_texts;

    let ghost all = texts(list@);
    let mut ranks: Vec<Rank> = Vec::new();
    for i in 0..list.len()
        invariant
            all == texts(list@),
            rank_views(ranks@) == Seq::new(i as nat, |k: int| text_rank(all[k])),
    {
        let ghost before = ranks@;
        let rank = Rank { number: 0, first: chars_of(list[i].as_str()), second: Vec::new() };
        assert(rank@ == text_rank(all[i as int]));
        ranks.push(rank);
        assert(rank_views(ranks@) =~= rank_views(before).push(rank@));
        assert(rank_views(ranks@) =~= Seq::new((i + 1) as nat, |k: int| text_rank(all[k])));
    }
    let ghost views = rank_views(ranks@);
    let order = arrange(&ranks, false);
    let mut sorted: Vec<String> = Vec::new();
    for i in 0..order.len()
        invariant
            all == texts(list@),
            views == Seq::new(all.len(), |k: int| text_rank(all[k])),
            is_arrangement(order@, views, false),
            strictly_ordered(texts(sorted@)),
            sorted@.len() == 0 <==> i == 0,
            i > 0 ==> texts(sorted@).last() == all[order@[i - 1] as int],
            forall|k: int|
                0 <= k < sorted@.len() ==> all.contains(#[trigger] texts(sorted@)[k]),
            forall|k: int| 0 <= k < i ==> texts(sorted@).contains(all[#[trigger] order@[k] as int]),
    {
        let ghost before = texts(sorted@);
        assert(order@.contains(order@[i as int]));
        let at: usize = order[i];
        let ghost next = all[at as int];
        let fresh: bool = sorted.len() == 0 || !same_text(
            sorted[sorted.len() - 1].as_str(),
            list[at].as_str(),
        );
        if fresh {
            proof {
                if i > 0 {
                    let prior = order@[i - 1] as int;
                    assert(order@.contains(order@[i - 1]));
                    assert(goes_before(views, false, prior, at as int));
                    assert(views[prior] == text_rank(all[prior]));
                    assert(views[at as int] == text_rank(next));
                    lemma_text_irreflexive(Seq::<char>::empty());
                    assert(text_before(before.last(), next));
                }
                assert forall|k: int| 0 <= k < before.len() implies text_before(
                    #[trigger] before[k],
                    next,
                ) by {
                    if k < before.len() - 1 {
                        assert(text_before(before[k], before[before.len() - 1]));
                        lemma_text_transitive(before[k], before.last(), next);
                    }
                }
            }
            sorted.push(list[at].clone());
            assert(texts(sorted@) == before.push(next));
            assert(all.contains(next));
            assert forall|k: int| 0 <= k < i + 1 implies texts(sorted@).contains(
                all[#[trigger] order@[k] as int],
            ) by {
                if k < i {
                    lemma_contains_push(before, next, all[order@[k] as int]);
                } else {
                    lemma_contains_push(before, next, next);
                }
            }
        } else {
            assert(texts(sorted@).contains(texts(sorted@).last()));
        }
    }
    proof {
        let done = texts(sorted@);
        assert forall|text: Seq<char>| #[trigger] done.contains(text) <==> all.contains(text) by {
            if all.contains(text) {
                let k = choose|k: int| 0 <= k < all.len() && all[k] == text;
                assert(order@.contains(k as usize));
                let p = choose|p: int| 0 <= p < order@.len() && order@[p] == k as usize;
                assert(done.contains(all[order@[p] as int]));
            }
        }
        lemma_ordered_unique(done, sorted_set(all));
    }
    sorted
}

} // verus!
