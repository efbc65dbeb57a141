//! Word lists and the logic to combine them into petnames.
//!
//! A petname with `n` words contains, in order: `n - 2` adverbs when
//! `n > 2`, one adjective when `n >= 2`, and one name when `n >= 1`.

use vstd::prelude::*;
use crate::arith::lemma_product_take_succ;
use crate::arith::lemma_sat_cap_mul;
use crate::arith::list_product;
use crate::arith::sat_cap;
use crate::randomness::new_rng;
use crate::randomness::rand_index;
use crate::text::join_with;
use crate::text::join_words;
use crate::text::split_whitespace_spec;
use crate::text::split_words;
use crate::text::words_view;

verus! {

/// The source list a position of a petname draws from.
#[derive(Clone, Copy, Debug)]
pub enum Role {
    Adverb,
    Adjective,
    Name,
}

/// Word lists and the logic to combine them into petnames.
#[derive(Clone, Debug)]
pub struct Petnames {
    pub adjectives: Vec<String>,
    pub adverbs: Vec<String>,
    pub names: Vec<String>,
}

/// The role of position `i` (counted from the fastest-cycling position)
/// in a petname of `words` words: the name last, the adjective before it,
/// adverbs in every earlier position.
pub open spec fn spec_role_at(words: u8, i: int) -> Role {
    if i == words - 1 {
        Role::Name
    } else if i == words - 2 {
        Role::Adjective
    } else {
        Role::Adverb
    }
}

/// Runtime counterpart of `spec_role_at`.
pub fn role_at(words: u8, i: u8) -> (r: Role)
    requires
        i < words,
    ensures
        r == spec_role_at(words, i as int),
{
    if i == words - 1 {
        Role::Name
    } else if i == words - 2 {
        Role::Adjective
    } else {
        Role::Adverb
    }
}

/// The ordered sequence of word lists for a petname of `words` words,
/// fastest-cycling position first.
pub open spec fn role_lists_of(
    adj: Seq<Seq<char>>,
    adv: Seq<Seq<char>>,
    nam: Seq<Seq<char>>,
    words: u8,
) -> Seq<Seq<Seq<char>>> {
    Seq::new(
        words as nat,
        |i: int|
            match spec_role_at(words, i) {
                Role::Adverb => adv,
                Role::Adjective => adj,
                Role::Name => nam,
            },
    )
}

/// The lists that still offer a word: empty lists contribute nothing.
pub open spec fn nonempty_lists(lists: Seq<Seq<Seq<char>>>) -> Seq<Seq<Seq<char>>> {
    lists.filter(|l: Seq<Seq<char>>| l.len() > 0)
}

/// `ws` chooses exactly one word from each non-empty list, in order.
pub open spec fn picked_from(lists: Seq<Seq<Seq<char>>>, ws: Seq<Seq<char>>) -> bool {
    &&& ws.len() == nonempty_lists(lists).len()
    &&& forall|i: int| 0 <= i < ws.len() ==> nonempty_lists(lists)[i].contains(ws[i])
}

pub proof fn lemma_nonempty_lists_push(s: Seq<Seq<Seq<char>>>, x: Seq<Seq<char>>)
    ensures
        x.len() > 0 ==> nonempty_lists(s.push(x)) == nonempty_lists(s).push(x),
        x.len() == 0 ==> nonempty_lists(s.push(x)) == nonempty_lists(s),
{
    reveal(Seq::filter);
    assert(s.push(x).drop_last() =~= s);
    assert(s.push(x).last() == x);
}

/// Filtering a sequence by a predicate, one step at the back.
pub proof fn lemma_seq_filter_push<A>(s: Seq<A>, x: A, pred: spec_fn(A) -> bool)
    ensures
        pred(x) ==> s.push(x).filter(pred) == s.filter(pred).push(x),
        !pred(x) ==> s.push(x).filter(pred) == s.filter(pred),
{
    reveal(Seq::filter);
    assert(s.push(x).drop_last() =~= s);
    assert(s.push(x).last() == x);
}

/// The words of `s` kept by the decision mask `m`, in their original order.
pub open spec fn mask_filter<A>(s: Seq<A>, m: Seq<bool>) -> Seq<A>
    decreases s.len(),
{
    if s.len() == 0 {
        Seq::empty()
    } else {
        let rest = mask_filter(s.drop_last(), m.drop_last());
        if s.len() <= m.len() && m[s.len() - 1] {
            rest.push(s.last())
        } else {
            rest
        }
    }
}

/// The predicate can decide `keep` for a word whose characters are `w`.
pub open spec fn decides<F: Fn(&str) -> bool>(predicate: F, w: Seq<char>, keep: bool) -> bool {
    exists|s: &str| s@ == w && call_ensures(predicate, (s,), keep)
}

/// `after` is `before` filtered by a mask of decisions the predicate can
/// make, one per word, preserving order.
pub open spec fn mask_selected<F: Fn(&str) -> bool>(
    predicate: F,
    before: Seq<Seq<char>>,
    after: Seq<Seq<char>>,
) -> bool {
    exists|m: Seq<bool>|
        m.len() == before.len() && (forall|j: int|
            0 <= j < m.len() ==> decides(predicate, before[j], m[j])) && after == mask_filter(
            before,
            m,
        )
}

/// Keeps the words of `v` for which the predicate returns true, in order.
fn filter_list<F: Fn(&str) -> bool>(v: &Vec<String>, predicate: &F) -> (r: Vec<String>)
    requires
        forall|s: &str| call_requires(*predicate, (s,)),
    ensures
        mask_selected(*predicate, words_view(v@), words_view(r@)),
        forall|p: spec_fn(Seq<char>) -> bool|
            (forall|s: &str, keep: bool| call_ensures(*predicate, (s,), keep) ==> keep == p(s@))
                ==> words_view(r@) == #[trigger] words_view(v@).filter(p),
{
    let mut r: Vec<String> = Vec::new();
    let ghost mut mask: Seq<bool> = Seq::empty();
    let mut j: usize = 0;
    while j < v.len()
        invariant
            j <= v@.len(),
            forall|s: &str| call_requires(*predicate, (s,)),
            mask.len() == j,
            forall|q: int| 0 <= q < j ==> decides(*predicate, words_view(v@)[q], mask[q]),
            words_view(r@) == mask_filter(words_view(v@).take(j as int), mask),
            forall|p: spec_fn(Seq<char>) -> bool|
                (forall|s: &str, keep: bool| call_ensures(*predicate, (s,), keep) ==> keep == p(
                    s@,
                )) ==> words_view(r@) == #[trigger] words_view(v@).take(j as int).filter(p),
        decreases v@.len() - j,
    {
        let w: &String = &v[j];
        let ws: &str = w.as_str();
        let keep = (*predicate)(ws);
        let ghost prev_views = words_view(r@);
        if keep {
            r.push(w.clone());
        }
        proof {
            let all = words_view(v@);
            assert(all[j as int] == w@);
            assert(call_ensures(*predicate, (ws,), keep));
            assert(decides(*predicate, all[j as int], keep));
            let mask0 = mask;
            mask = mask.push(keep);
            if keep {
                assert(words_view(r@) =~= prev_views.push(w@));
            }
            assert(all.take(j + 1).drop_last() =~= all.take(j as int));
            assert(mask.drop_last() =~= mask0);
            assert(all.take(j + 1).last() == all[j as int]);
            assert(mask.last() == keep);
            assert(words_view(r@) == mask_filter(all.take(j + 1), mask));
            assert forall|p: spec_fn(Seq<char>) -> bool|
                (forall|s: &str, keep2: bool|
                    call_ensures(*predicate, (s,), keep2) ==> keep2 == p(
                        s@,
                    )) implies words_view(r@) == #[trigger] all.take(j + 1).filter(p) by {
                assert(keep == p(ws@));
                assert(all.take(j + 1) =~= all.take(j as int).push(all[j as int]));
                lemma_seq_filter_push(all.take(j as int), all[j as int], p);
                assert(prev_views == all.take(j as int).filter(p));
            }
        }
        j = j + 1;
    }
    proof {
        assert(words_view(v@).take(v@.len() as int) =~= words_view(v@));
        assert(mask_selected(*predicate, words_view(v@), words_view(r@)));
    }
    r
}

/// An exact copy of a word list.
pub fn clone_words(v: &Vec<String>) -> (r: Vec<String>)
    ensures
        r@ == v@,
{
    let mut r: Vec<String> = Vec::new();
    let mut i: usize = 0;
    while i < v.len()
        invariant
            i <= v@.len(),
            r@ =~= v@.take(i as int),
        decreases v@.len() - i,
    {
        let w: &String = &v[i];
        r.push(w.clone());
        i = i + 1;
    }
    proof {
        assert(v@.take(v@.len() as int) =~= v@);
    }
    r
}

impl Petnames {
    /// The adjective list, as character sequences.
    pub open spec fn adj(self) -> Seq<Seq<char>> {
        words_view(self.adjectives@)
    }

    /// The adverb list, as character sequences.
    pub open spec fn adv(self) -> Seq<Seq<char>> {
        words_view(self.adverbs@)
    }

    /// The name list, as character sequences.
    pub open spec fn nam(self) -> Seq<Seq<char>> {
        words_view(self.names@)
    }

    /// The list a role refers to.
    pub open spec fn list_view(self, role: Role) -> Seq<Seq<char>> {
        match role {
            Role::Adverb => self.adv(),
            Role::Adjective => self.adj(),
            Role::Name => self.nam(),
        }
    }

    /// The ordered word lists for a petname of `words` words.
    pub open spec fn role_lists(self, words: u8) -> Seq<Seq<Seq<char>>> {
        role_lists_of(self.adj(), self.adv(), self.nam(), words)
    }

    /// The lengths of those lists.
    pub open spec fn role_lens(self, words: u8) -> Seq<nat> {
        self.role_lists(words).map_values(|l: Seq<Seq<char>>| l.len())
    }

    /// Constructs a new `Petnames` from the given word lists.
    ///
    /// The words are extracted from the given strings by splitting on
    /// whitespace; empty tokens are discarded.
    pub fn new(adjectives: &str, adverbs: &str, names: &str) -> (r: Petnames)
        ensures
            r.adj() == split_whitespace_spec(adjectives@),
            r.adv() == split_whitespace_spec(adverbs@),
            r.nam() == split_whitespace_spec(names@),
    {
        Petnames {
            adjectives: split_words(adjectives),
            adverbs: split_words(adverbs),
            names: split_words(names),
        }
    }

    /// The word list a role refers to.
    pub fn list_for(&self, role: Role) -> (l: &Vec<String>)
        ensures
            words_view(l@) == self.list_view(role),
    {
        match role {
            Role::Adverb => &self.adverbs,
            Role::Adjective => &self.adjectives,
            Role::Name => &self.names,
        }
    }

    /// Keep words matching a predicate, in all three lists, preserving the
    /// relative order of the retained words.
    pub fn retain<F: Fn(&str) -> bool>(&mut self, predicate: F)
        requires
            forall|s: &str| call_requires(predicate, (s,)),
        ensures
            mask_selected(predicate, old(self).adj(), final(self).adj()),
            mask_selected(predicate, old(self).adv(), final(self).adv()),
            mask_selected(predicate, old(self).nam(), final(self).nam()),
            forall|p: spec_fn(Seq<char>) -> bool|
                (forall|s: &str, keep: bool| call_ensures(predicate, (s,), keep) ==> keep == p(s@))
                    ==> final(self).adj() == #[trigger] old(self).adj().filter(p)
                    && final(self).adv() == old(self).adv().filter(p)
                    && final(self).nam() == old(self).nam().filter(p),
    {
        let a = filter_list(&self.adjectives, &predicate);
        let b = filter_list(&self.adverbs, &predicate);
        let c = filter_list(&self.names, &predicate);
        self.adjectives = a;
        self.adverbs = b;
        self.names = c;
    }

    /// Calculate the cardinality of this `Petnames`: the number of distinct
    /// petnames of `words` words, as the product of the referenced list
    /// lengths, saturating at the largest `u128` value; 0 when `words` is 0.
    pub fn cardinality(&self, words: u8) -> (r: u128)
        ensures
            words == 0 ==> r == 0,
            words >= 1 ==> r as nat == sat_cap(list_product(self.role_lens(words))),
    {
        if words == 0 {
            return 0;
        }
        let ghost lens0 = self.role_lens(words);
        let mut acc: u128 = 1;
        let mut i: u8 = 0;
        while i < words
            invariant
                i <= words,
                words >= 1,
                lens0 == self.role_lens(words),
                acc as nat == sat_cap(list_product(lens0.take(i as int))),
            decreases words - i,
        {
            let role = role_at(words, i);
            let list = self.list_for(role);
            let len = list.len();
            proof {
                assert(lens0[i as int] == len as nat);
                lemma_product_take_succ(lens0, i as int);
                lemma_sat_cap_mul(list_product(lens0.take(i as int)), len as nat);
                assert(lens0.take(i + 1) =~= lens0.take(i as int).push(lens0[i as int]));
            }
            acc = match acc.checked_mul(len as u128) {
                Some(x) => x,
                None => u128::MAX,
            };
            i = i + 1;
        }
        proof {
            assert(lens0.take(words as int) =~= lens0);
        }
        acc
    }

    /// Generate a new petname: one word drawn at random from each referenced
    /// list (empty lists contribute nothing), joined by the separator.
    pub fn generate(&self, rng: &mut rand::rngs::ThreadRng, words: u8, separator: &str) -> (r:
        String)
        ensures
            exists|ws: Seq<Seq<char>>|
                picked_from(self.role_lists(words), ws) && r@ == join_with(ws, separator@),
    {
        let ghost lists0 = self.role_lists(words);
        let mut parts: Vec<String> = Vec::new();
        let mut i: u8 = 0;
        while i < words
            invariant
                i <= words,
                lists0 == self.role_lists(words),
                words_view(parts@).len() == nonempty_lists(lists0.take(i as int)).len(),
                forall|j: int|
                    0 <= j < parts@.len() ==> nonempty_lists(lists0.take(i as int))[j].contains(
                        words_view(parts@)[j],
                    ),
            decreases words - i,
        {
            let role = role_at(words, i);
            let list = self.list_for(role);
            proof {
                assert(words_view(list@) == lists0[i as int]);
                assert(lists0.take(i + 1) =~= lists0.take(i as int).push(lists0[i as int]));
                lemma_nonempty_lists_push(lists0.take(i as int), lists0[i as int]);
            }
            if list.len() > 0 {
                let k = rand_index(rng, list.len());
                let w: &String = &list[k];
                let ghost prev_views = words_view(parts@);
                parts.push(w.clone());
                proof {
                    assert(words_view(parts@) =~= prev_views.push(w@));
                    assert(lists0[i as int][k as int] == w@);
                    assert(lists0[i as int].contains(w@));
                }
            }
            i = i + 1;
        }
        proof {
            assert(lists0.take(words as int) =~= lists0);
            assert(picked_from(lists0, words_view(parts@)));
        }
        join_words(&parts, separator)
    }

    /// Generate a single new petname with the thread-local random source.
    pub fn generate_one(&self, words: u8, separator: &str) -> (r: String)
        ensures
            exists|ws: Seq<Seq<char>>|
                picked_from(self.role_lists(words), ws) && r@ == join_with(ws, separator@),
    {
        let mut rng = new_rng();
        self.generate(&mut rng, words, separator)
    }

    /// An unbounded source of petnames: every call to `Names::next` yields
    /// one more independently drawn petname.
    pub fn iter(&self, words: u8, separator: &str) -> (r: Names)
        ensures
            r.petnames.adj() == self.adj(),
            r.petnames.adv() == self.adv(),
            r.petnames.nam() == self.nam(),
            r.words == words,
            r.separator@ == separator@,
    {
        Names {
            petnames: Petnames {
                adjectives: clone_words(&self.adjectives),
                adverbs: clone_words(&self.adverbs),
                names: clone_words(&self.names),
            },
            words,
            separator: separator.to_owned(),
        }
    }
}

/// A source of independently drawn petnames. It never runs out: `next`
/// always yields a petname.
pub struct Names {
    pub petnames: Petnames,
    pub words: u8,
    pub separator: String,
}

impl Names {
    /// Yields one more petname. The result is never `None`: this sequence
    /// does not terminate on its own.
    pub fn next(&self, rng: &mut rand::rngs::ThreadRng) -> (r: Option<String>)
        ensures
            r matches Some(s) && exists|ws: Seq<Seq<char>>|
                picked_from(self.petnames.role_lists(self.words), ws) && s@ == join_with(
                    ws,
                    self.separator@,
                ),
    {
        Some(self.petnames.generate(rng, self.words, self.separator.as_str()))
    }
}

} // verus!
