//! The laws of the library, each stated and proved over the spec functions
//! that the public contracts use.

use vstd::prelude::*;
use crate::arith::digit;
use crate::arith::lemma_digit_range;
use crate::arith::lemma_digits_unique;
use crate::arith::lemma_product_zero;
use crate::arith::list_product;
use crate::arith::sat_cap;
use crate::petnames::Petnames;
use crate::product::NamesProduct;

verus! {

/// For a positive word count and a combination count that fits in `u128`,
/// `cardinality` returns exactly the product of the lengths of the
/// referenced lists.
pub proof fn lemma_cardinality_is_product(p: Petnames, words: u8)
    requires
        words >= 1,
        list_product(p.role_lens(words)) <= u128::MAX,
    ensures
        sat_cap(list_product(p.role_lens(words))) == list_product(p.role_lens(words)),
{
}

/// For very large combination counts, `cardinality` saturates at the
/// largest `u128` value instead of overflowing.
pub proof fn lemma_cardinality_saturates(p: Petnames, words: u8)
    requires
        words >= 1,
        list_product(p.role_lens(words)) > u128::MAX,
    ensures
        sat_cap(list_product(p.role_lens(words))) == u128::MAX,
{
}

/// For a positive word count, `cardinality` returns zero exactly when some
/// referenced list is empty.
pub proof fn lemma_cardinality_zero(p: Petnames, words: u8)
    requires
        words >= 1,
    ensures
        sat_cap(list_product(p.role_lens(words))) == 0 <==> exists|i: int|
            0 <= i < words && p.role_lists(words)[i].len() == 0,
{
    let lens = p.role_lens(words);
    if exists|i: int| 0 <= i < words && p.role_lists(words)[i].len() == 0 {
        let i = choose|i: int| 0 <= i < words && p.role_lists(words)[i].len() == 0;
        lemma_product_zero(lens, i);
    }
    if list_product(lens) == 0 {
        if forall|i: int| 0 <= i < words ==> #[trigger] lens[i] >= 1 {
            crate::arith::lemma_product_pos(lens);
            assert(false);
        }
        let i = choose|i: int| 0 <= i < words && !(#[trigger] lens[i] >= 1);
        assert(p.role_lists(words)[i].len() == 0);
    }
}

/// A non-repeating run built from the role lists of `words` yields exactly
/// the product of the role-list lengths: its `total` is the same product
/// `cardinality` computes.
pub proof fn lemma_non_repeating_count(p: Petnames, r: NamesProduct, words: u8)
    requires
        words >= 1,
        r.ncols() == words as int,
        forall|i: int|
            0 <= i < words ==> #[trigger] r.model()[i].len() == p.role_lists(words)[i].len(),
    ensures
        r.total() == list_product(p.role_lens(words)),
{
    assert(r.lens() =~= p.role_lens(words));
}

/// Every list of a run with a combination left to yield is non-empty.
pub proof fn lemma_lists_nonempty(r: NamesProduct, t: int)
    requires
        r.ncols() >= 1,
        0 <= t < r.total(),
    ensures
        forall|i: int| 0 <= i < r.ncols() ==> #[trigger] r.lens()[i] >= 1,
{
    assert forall|i: int| 0 <= i < r.ncols() implies #[trigger] r.lens()[i] >= 1 by {
        if r.lens()[i] == 0 {
            lemma_product_zero(r.lens(), i);
        }
    }
}

/// Distinct steps of a non-repeating run yield distinct word tuples, as
/// long as no list holds the same word twice: no combination repeats.
pub proof fn lemma_tuples_distinct(r: NamesProduct, t1: int, t2: int)
    requires
        r.ncols() >= 1,
        forall|i: int| 0 <= i < r.ncols() ==> (#[trigger] r.model()[i]).no_duplicates(),
        0 <= t1 < r.total(),
        0 <= t2 < r.total(),
        t1 != t2,
    ensures
        r.tuple_at(t1) != r.tuple_at(t2),
{
    lemma_lists_nonempty(r, t1);
    if r.tuple_at(t1) == r.tuple_at(t2) {
        assert forall|i: int| 0 <= i < r.ncols() implies digit(r.lens(), t1, i) == digit(
            r.lens(),
            t2,
            i,
        ) by {
            lemma_digit_range(r.lens(), t1, i);
            lemma_digit_range(r.lens(), t2, i);
            let d1 = digit(r.lens(), t1, i);
            let d2 = digit(r.lens(), t2, i);
            assert(r.tuple_at(t1)[i] == r.tuple_at(t2)[i]);
            assert(r.model()[i][d1] == r.model()[i][d2]);
        }
        lemma_digits_unique(r.lens(), t1, t2);
        assert(false);
    }
}

/// Every word of the `t`-th combination of a non-repeating run built from
/// the role lists of `words` comes from the list of its position.
pub proof fn lemma_tuple_words_from_lists(p: Petnames, r: NamesProduct, words: u8, t: int)
    requires
        words >= 1,
        r.ncols() == words as int,
        forall|i: int|
            0 <= i < words ==> #[trigger] r.model()[i].to_multiset() == p.role_lists(
                words,
            )[i].to_multiset(),
        0 <= t < r.total(),
    ensures
        r.tuple_at(t).len() == words as int,
        forall|i: int|
            0 <= i < words ==> #[trigger] p.role_lists(words)[i].contains(r.tuple_at(t)[i]),
{
    broadcast use vstd::seq_lib::group_to_multiset_ensures;

    lemma_lists_nonempty(r, t);
    assert forall|i: int| 0 <= i < words implies #[trigger] p.role_lists(words)[i].contains(
        r.tuple_at(t)[i],
    ) by {
        lemma_digit_range(r.lens(), t, i);
        let d = digit(r.lens(), t, i);
        let w = r.model()[i][d];
        assert(r.model()[i].contains(w));
        assert(r.model()[i].to_multiset().count(w) > 0);
        assert(p.role_lists(words)[i].to_multiset().count(w) > 0);
    }
}

/// Shuffling keeps a duplicate-free list duplicate-free: a list and any
/// reordering of it hold each word equally often.
pub proof fn lemma_no_duplicates_reordered(s1: Seq<Seq<char>>, s2: Seq<Seq<char>>)
    requires
        s1.to_multiset() == s2.to_multiset(),
        s1.no_duplicates(),
    ensures
        s2.no_duplicates(),
{
    s1.lemma_multiset_has_no_duplicates();
    s2.lemma_multiset_has_no_duplicates_conv();
}

proof fn lemma_filter_all_kept<A>(t: Seq<A>, p: spec_fn(A) -> bool)
    requires
        forall|i: int| 0 <= i < t.len() ==> p(#[trigger] t[i]),
    ensures
        t.filter(p) == t,
    decreases t.len(),
{
    reveal(Seq::filter);
    if t.len() > 0 {
        lemma_filter_all_kept(t.drop_last(), p);
        assert(p(t.last()));
        assert(t.drop_last().push(t.last()) =~= t);
    }
}

/// Filtering is idempotent: filtering a list twice by the same predicate
/// yields the list filtered once. With `retain`, applying the same
/// predicate twice leaves what one application leaves.
pub proof fn lemma_filter_idempotent<A>(s: Seq<A>, p: spec_fn(A) -> bool)
    ensures
        s.filter(p).filter(p) == s.filter(p),
{
    let f = s.filter(p);
    assert forall|i: int| 0 <= i < f.len() implies p(#[trigger] f[i]) by {
        s.lemma_filter_pred(p, i);
    }
    lemma_filter_all_kept(f, p);
}

} // verus!
