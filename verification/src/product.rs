//! The non-repeating enumerator: a shuffled ripple-carry odometer over the
//! word lists. Each position cycles through a shuffled copy of its list
//! with a wrap marker at the end; a position advances only when the
//! position before it wraps, so over a full run every combination of
//! words appears exactly once, as the mixed-radix digits of the step
//! counter.

use vstd::prelude::*;
use vstd::arithmetic::div_mod::lemma_fundamental_div_mod_converse;
use vstd::arithmetic::div_mod::lemma_mod_self_0;
use vstd::arithmetic::div_mod::lemma_small_mod;
use crate::arith::digit;
use crate::arith::lemma_digit_nocarry;
use crate::arith::lemma_digit_step;
use crate::arith::lemma_product_pos;
use crate::arith::lemma_product_zero;
use crate::arith::list_product;
use crate::arith::place_value;
use crate::petnames::clone_words;
use crate::petnames::role_at;
use crate::petnames::Petnames;
use crate::randomness::shuffle_words;
use crate::text::join_with;
use crate::text::join_words_with_capacity;
use crate::text::words_view;

verus! {

broadcast use vstd::slice::group_slice_axioms;

/// The view of a sequence of word lists.
pub open spec fn lists_view(ls: Seq<Vec<String>>) -> Seq<Seq<Seq<char>>> {
    ls.map_values(|l: Vec<String>| words_view(l@))
}

/// The UTF-8 size of a word, in bytes.
pub open spec fn word_bytes(w: Seq<char>) -> nat {
    vstd::utf8::encode_utf8(w).len()
}

/// The UTF-8 size of the longest word of a list; 0 for an empty list.
pub open spec fn max_word_bytes(l: Seq<Seq<char>>) -> nat
    decreases l.len(),
{
    if l.len() == 0 {
        0
    } else if word_bytes(l[0]) > max_word_bytes(l.drop_first()) {
        word_bytes(l[0])
    } else {
        max_word_bytes(l.drop_first())
    }
}

/// The sum of the longest-word sizes over the lists.
pub open spec fn sum_max_bytes(lists: Seq<Seq<Seq<char>>>) -> nat
    decreases lists.len(),
{
    if lists.len() == 0 {
        0
    } else {
        max_word_bytes(lists[0]) + sum_max_bytes(lists.drop_first())
    }
}

/// Capping at the largest `usize` value.
pub open spec fn cap_usize(n: nat) -> nat {
    if n > usize::MAX {
        usize::MAX as nat
    } else {
        n
    }
}

/// The bytes one assembled petname can need: the longest word of each
/// position plus one separator between adjacent positions.
pub open spec fn capacity_need(lists: Seq<Seq<Seq<char>>>, sep: Seq<char>) -> nat {
    if lists.len() == 0 {
        0
    } else {
        sum_max_bytes(lists) + word_bytes(sep) * ((lists.len() - 1) as nat)
    }
}

pub open spec fn is_pow2(n: nat) -> bool
    decreases n,
{
    if n == 0 {
        false
    } else if n == 1 {
        true
    } else {
        n % 2 == 0 && is_pow2(n / 2)
    }
}

proof fn lemma_max_bytes_push(l: Seq<Seq<char>>, w: Seq<char>)
    ensures
        max_word_bytes(l.push(w)) == if word_bytes(w) > max_word_bytes(l) {
            word_bytes(w)
        } else {
            max_word_bytes(l)
        },
    decreases l.len(),
{
    if l.len() == 0 {
        assert(l.push(w)[0] == w);
        assert(l.push(w).drop_first() =~= Seq::<Seq<char>>::empty());
        assert(max_word_bytes(Seq::<Seq<char>>::empty()) == 0);
    } else {
        lemma_max_bytes_push(l.drop_first(), w);
        assert(l.push(w).drop_first() =~= l.drop_first().push(w));
        assert(l.push(w)[0] == l[0]);
    }
}

proof fn lemma_sum_max_push(s: Seq<Seq<Seq<char>>>, x: Seq<Seq<char>>)
    ensures
        sum_max_bytes(s.push(x)) == sum_max_bytes(s) + max_word_bytes(x),
    decreases s.len(),
{
    if s.len() == 0 {
        assert(s.push(x)[0] == x);
        assert(s.push(x).drop_first() =~= Seq::<Seq<Seq<char>>>::empty());
        assert(sum_max_bytes(Seq::<Seq<Seq<char>>>::empty()) == 0);
    } else {
        lemma_sum_max_push(s.drop_first(), x);
        assert(s.push(x).drop_first() =~= s.drop_first().push(x));
        assert(s.push(x)[0] == s[0]);
    }
}

/// A finite source of petnames that yields every combination of the given
/// word lists exactly once, then stops for good.
pub struct NamesProduct {
    /// One shuffled copy of a word list per petname position,
    /// fastest-cycling position first.
    pub lists: Vec<Vec<String>>,
    /// Per position, the next index to draw; an index equal to the list
    /// length stands for the wrap marker at the end of the cycle.
    pub positions: Vec<usize>,
    /// Per position, the word the current combination uses, once drawn.
    pub currents: Vec<Option<String>>,
    /// The separator placed between adjacent words.
    pub separator: String,
    /// A capacity hint for one petname's string buffer.
    pub capacity: usize,
    /// Whether the enumeration has finished.
    pub done: bool,
    /// How many petnames have been yielded so far.
    pub steps: Ghost<nat>,
}

impl NamesProduct {
    /// The shuffled word lists, as character sequences.
    pub open spec fn model(self) -> Seq<Seq<Seq<char>>> {
        lists_view(self.lists@)
    }

    /// The list lengths: the radices of the odometer.
    pub open spec fn lens(self) -> Seq<nat> {
        self.model().map_values(|l: Seq<Seq<char>>| l.len())
    }

    pub open spec fn ncols(self) -> int {
        self.lists@.len() as int
    }

    /// How many petnames a full run yields: the product of the list
    /// lengths, except that an empty sequence of lists yields the single
    /// empty petname.
    pub open spec fn total(self) -> nat {
        if self.ncols() == 0 {
            1
        } else {
            list_product(self.lens())
        }
    }

    /// The words of the `t`-th combination: position `i` holds the word
    /// addressed by digit `i` of `t`.
    pub open spec fn tuple_at(self, t: int) -> Seq<Seq<char>> {
        Seq::new(self.ncols() as nat, |i: int| self.model()[i][digit(self.lens(), t, i)])
    }

    /// The `t`-th petname of the run.
    pub open spec fn name_at(self, t: int) -> Seq<char> {
        join_with(self.tuple_at(t), self.separator@)
    }

    /// A string-buffer capacity hint for one petname: the sum of each
    /// position's longest word size and the separators between positions,
    /// rounded up to the next power of two; 0 when no `usize` power of two
    /// can hold it. A performance hint only: the byte budget is capped at
    /// `usize::MAX` before rounding.
    pub fn capacity(lists: &Vec<Vec<String>>, separator: &str) -> (r: usize)
        ensures
            r != 0 ==> is_pow2(r as nat) && r as nat >= cap_usize(
                capacity_need(lists_view(lists@), separator@),
            ) && (r == 1 || (r as nat) / 2 < cap_usize(
                capacity_need(lists_view(lists@), separator@),
            )),
            r == 0 ==> cap_usize(capacity_need(lists_view(lists@), separator@)) > (usize::MAX
                / 2) as nat,
    {
        let ghost lv = lists_view(lists@);
        let mut sum: usize = 0;
        let mut i: usize = 0;
        while i < lists.len()
            invariant
                i <= lists@.len(),
                lv == lists_view(lists@),
                sum as nat == cap_usize(sum_max_bytes(lv.take(i as int))),
            decreases lists@.len() - i,
        {
            let l: &Vec<String> = &lists[i];
            let mut mx: usize = 0;
            let mut j: usize = 0;
            while j < l.len()
                invariant
                    j <= l@.len(),
                    mx as nat == max_word_bytes(words_view(l@).take(j as int)),
                decreases l@.len() - j,
            {
                let wl = l[j].as_str().as_bytes().len();
                proof {
                    let views = words_view(l@);
                    assert(wl as nat == word_bytes(views[j as int]));
                    assert(views.take(j + 1) =~= views.take(j as int).push(views[j as int]));
                    lemma_max_bytes_push(views.take(j as int), views[j as int]);
                }
                if wl > mx {
                    mx = wl;
                }
                j = j + 1;
            }
            proof {
                assert(words_view(l@).take(l@.len() as int) =~= words_view(l@));
                assert(lv[i as int] == words_view(l@));
                assert(lv.take(i + 1) =~= lv.take(i as int).push(lv[i as int]));
                lemma_sum_max_push(lv.take(i as int), lv[i as int]);
            }
            sum = match sum.checked_add(mx) {
                Some(x) => x,
                None => usize::MAX,
            };
            i = i + 1;
        }
        proof {
            assert(lv.take(lists@.len() as int) =~= lv);
        }
        let sep_len = separator.as_bytes().len();
        let n1 = if lists.len() == 0 {
            0
        } else {
            lists.len() - 1
        };
        let sep_total = match sep_len.checked_mul(n1) {
            Some(x) => x,
            None => usize::MAX,
        };
        let total = match sum.checked_add(sep_total) {
            Some(x) => x,
            None => usize::MAX,
        };
        proof {
            if lists@.len() == 0 {
                assert(total as nat == cap_usize(capacity_need(lv, separator@)));
            } else {
                assert(sep_len as nat == word_bytes(separator@));
                assert(sep_total as nat == cap_usize(word_bytes(separator@) * ((lv.len() - 1) as nat)));
                assert(total as nat == cap_usize(capacity_need(lv, separator@)));
            }
        }
        let mut p: usize = 1;
        while p < total
            invariant
                is_pow2(p as nat),
                p >= 1,
                p == 1 || (p as nat) / 2 < total as nat,
                total as nat == cap_usize(capacity_need(lists_view(lists@), separator@)),
            decreases 2 * total - p,
        {
            if p > usize::MAX / 2 {
                return 0;
            }
            p = p * 2;
            proof {
                assert((p as nat) % 2 == 0 && (p as nat) / 2 < total as nat);
            }
        }
        p
    }

    pub open spec fn wf(self) -> bool {
        &&& self.positions@.len() == self.lists@.len()
        &&& self.currents@.len() == self.lists@.len()
        &&& forall|i: int|
            0 <= i < self.ncols() ==> #[trigger] self.positions@[i] <= self.lists@[i]@.len()
    }

    /// No step taken yet: nothing drawn anywhere.
    pub open spec fn at_start(self) -> bool {
        forall|i: int|
            0 <= i < self.ncols() ==> #[trigger] self.positions@[i] == 0 && self.currents@[i]
                is None
    }

    /// The state after `t >= 1` yields: each position caches the word of
    /// combination `t - 1` and will next draw the entry after it.
    pub open spec fn in_step(self, t: int) -> bool {
        forall|i: int|
            0 <= i < self.ncols() ==> #[trigger] self.positions@[i] == digit(self.lens(), t - 1, i)
                + 1 && (self.currents@[i] matches Some(w) && w@ == self.model()[i][digit(
                self.lens(),
                t - 1,
                i,
            )])
    }

    pub open spec fn inv(self) -> bool {
        &&& self.wf()
        &&& self.steps@ <= self.total()
        &&& self.done ==> self.steps@ == self.total()
        &&& !self.done ==> if self.ncols() == 0 {
            self.steps@ == 0
        } else if self.steps@ == 0 {
            self.at_start()
        } else {
            self.in_step(self.steps@ as int) && (forall|i: int|
                0 <= i < self.ncols() ==> #[trigger] self.lens()[i] >= 1)
        }
    }

    /// Yields the next petname of the run, or `None` once every
    /// combination has been yielded. The `t`-th yielded petname is the
    /// words of combination `t` joined by the separator.
    pub fn next(&mut self) -> (r: Option<String>)
        requires
            old(self).inv(),
        ensures
            final(self).inv(),
            final(self).model() == old(self).model(),
            final(self).separator == old(self).separator,
            old(self).steps@ < old(self).total() ==> (r matches Some(s) && s@ == old(self).name_at(
                old(self).steps@ as int,
            ) && final(self).steps@ == old(self).steps@ + 1),
            old(self).steps@ >= old(self).total() ==> r is None && final(self).steps@ == old(
                self,
            ).steps@ && final(self).done,
    {
        if self.done {
            return None;
        }
        let m = self.lists.len();
        if m == 0 {
            self.done = true;
            self.steps = Ghost(1);
            proof {
                assert(old(self).tuple_at(0) =~= Seq::<Seq<char>>::empty());
            }
            return Some(String::new());
        }
        let ghost t = self.steps@ as int;
        let mut bump = true;
        let mut i: usize = 0;
        while i < m
            invariant
                self.wf(),
                m == self.lists@.len(),
                m >= 1,
                i <= m,
                self.done == false,
                self.steps == old(self).steps,
                t == old(self).steps@ as int,
                0 <= t <= old(self).total(),
                self.model() == old(self).model(),
                self.separator == old(self).separator,
                self.total() == old(self).total(),
                forall|j: int|
                    i <= j < m ==> self.positions@[j] == old(self).positions@[j]
                        && self.currents@[j] == old(self).currents@[j],
                forall|j: int| 0 <= j < i ==> #[trigger] self.lens()[j] >= 1,
                forall|j: int|
                    0 <= j < i ==> #[trigger] self.positions@[j] == digit(self.lens(), t, j) + 1,
                forall|j: int|
                    0 <= j < i ==> (#[trigger] self.currents@[j] matches Some(w) && w@
                        == self.model()[j][digit(self.lens(), t, j)]),
                t == 0 ==> old(self).at_start(),
                t >= 1 ==> (forall|j: int| 0 <= j < m ==> #[trigger] self.lens()[j] >= 1),
                t >= 1 ==> old(self).in_step(t),
                t == 0 ==> bump == (i == 0),
                t >= 1 ==> bump == (t % place_value(self.lens(), i as int) as int == 0),
            decreases m - i,
        {
            let ghost lens = self.lens();
            let draw = bump || self.currents[i].is_none();
            proof {
                if t >= 1 {
                    assert(old(self).currents@[i as int] is Some);
                    if !bump {
                        lemma_digit_nocarry(lens, t, i as int, i as int);
                        lemma_digit_nocarry(lens, t, i as int, i + 1);
                    }
                }
            }
            if draw {
                let k = self.lists[i].len();
                let p = self.positions[i];
                proof {
                    if t >= 1 {
                        lemma_digit_step(lens, t, i as int);
                    }
                }
                if p < k {
                    let w = self.lists[i][p].clone();
                    self.currents.set(i, Some(w));
                    self.positions.set(i, p + 1);
                    bump = false;
                    proof {
                        if t == 0 {
                            lemma_digit_zero(lens, i as int);
                            assert(place_value(lens, i + 1) >= 1) by {
                                lemma_prefix_pos(lens, i + 1);
                            }
                            lemma_small_mod(0, place_value(lens, i + 1));
                        }
                        assert(self.model() =~= old(self).model());
                    }
                } else {
                    // the wrap marker: draw again from the start of the cycle.
                    if k == 0 {
                        // an empty list admits no combination at all.
                        self.done = true;
                        proof {
                            assert(self.lens()[i as int] == 0);
                            lemma_product_zero(self.lens(), i as int);
                            assert(self.model() =~= old(self).model());
                        }
                        return None;
                    }
                    let w = self.lists[i][0].clone();
                    self.currents.set(i, Some(w));
                    self.positions.set(i, 1);
                    proof {
                        assert(t >= 1);
                        assert(self.model() =~= old(self).model());
                    }
                }
            }
            i = i + 1;
        }
        proof {
            assert(self.lens().take(m as int) =~= self.lens());
        }
        proof {
            lemma_product_pos(self.lens());
        }
        if bump {
            // the most significant position wrapped: every combination
            // has been yielded.
            proof {
                assert(t >= 1);
                let n = self.total() as int;
                assert(n >= 1);
                lemma_mod_self_0(n);
                if t < n {
                    lemma_small_mod(t as nat, n as nat);
                    assert(false);
                }
            }
            self.done = true;
            return None;
        }
        proof {
            let n = self.total() as int;
            assert(n >= 1);
            if t == n {
                lemma_mod_self_0(n);
                assert(false);
            }
        }
        let mut parts: Vec<String> = Vec::new();
        let mut j: usize = 0;
        while j < m
            invariant
                self.wf(),
                m == self.lists@.len(),
                j <= m,
                self.done == false,
                self.steps == old(self).steps,
                t == old(self).steps@ as int,
                0 <= t < old(self).total(),
                self.model() == old(self).model(),
                self.separator == old(self).separator,
                self.total() == old(self).total(),
                forall|q: int| 0 <= q < m ==> #[trigger] self.lens()[q] >= 1,
                forall|q: int|
                    0 <= q < m ==> #[trigger] self.positions@[q] == digit(self.lens(), t, q) + 1,
                forall|q: int|
                    0 <= q < m ==> (#[trigger] self.currents@[q] matches Some(w) && w@
                        == self.model()[q][digit(self.lens(), t, q)]),
                parts@.len() == j as int,
                forall|q: int|
                    0 <= q < j ==> words_view(parts@)[q] == self.model()[q][digit(
                        self.lens(),
                        t,
                        q,
                    )],
            decreases m - j,
        {
            let cur = &self.currents[j];
            let w = cur.as_ref().unwrap().clone();
            let ghost prev_views = words_view(parts@);
            parts.push(w);
            proof {
                assert(words_view(parts@) =~= prev_views.push(w@));
            }
            j = j + 1;
        }
        self.steps = Ghost((t + 1) as nat);
        let name = join_words_with_capacity(&parts, self.separator.as_str(), self.capacity);
        proof {
            assert(words_view(parts@) =~= old(self).tuple_at(t));
        }
        Some(name)
    }
}

proof fn lemma_prefix_pos(lens: Seq<nat>, i: int)
    requires
        0 <= i <= lens.len(),
        forall|j: int| 0 <= j < i ==> lens[j] >= 1,
    ensures
        place_value(lens, i) >= 1,
{
    assert forall|j: int| 0 <= j < lens.take(i).len() implies lens.take(i)[j] >= 1 by {}
    lemma_product_pos(lens.take(i));
}

proof fn lemma_digit_zero(lens: Seq<nat>, i: int)
    requires
        0 <= i < lens.len(),
        lens[i] >= 1,
        forall|j: int| 0 <= j < i ==> lens[j] >= 1,
    ensures
        digit(lens, 0, i) == 0,
{
    lemma_prefix_pos(lens, i);
    let p = place_value(lens, i) as int;
    lemma_fundamental_div_mod_converse(0, p, 0, 0);
    lemma_fundamental_div_mod_converse(0, lens[i] as int, 0, 0);
}

impl Petnames {
    /// A source of unique petnames: it yields every combination of one
    /// word per referenced list exactly once — in an order randomized by
    /// shuffling each list — and then stops. The word lists it enumerates
    /// are the role lists of `words`, each merely reordered.
    pub fn iter_non_repeating(
        &self,
        rng: &mut rand::rngs::ThreadRng,
        words: u8,
        separator: &str,
    ) -> (r: NamesProduct)
        ensures
            r.inv(),
            r.steps@ == 0,
            r.done == false,
            r.separator@ == separator@,
            r.ncols() == words as int,
            forall|i: int|
                0 <= i < words ==> #[trigger] r.model()[i].len() == self.role_lists(words)[i].len(),
            forall|i: int|
                0 <= i < words ==> #[trigger] r.model()[i].to_multiset() == self.role_lists(
                    words,
                )[i].to_multiset(),
    {
        let ghost lists0 = self.role_lists(words);
        let mut lists: Vec<Vec<String>> = Vec::new();
        let mut positions: Vec<usize> = Vec::new();
        let mut currents: Vec<Option<String>> = Vec::new();
        let mut i: u8 = 0;
        while i < words
            invariant
                i <= words,
                lists0 == self.role_lists(words),
                lists@.len() == i as int,
                positions@.len() == i as int,
                currents@.len() == i as int,
                forall|j: int| 0 <= j < i ==> #[trigger] positions@[j] == 0,
                forall|j: int| 0 <= j < i ==> #[trigger] currents@[j] is None,
                forall|j: int|
                    0 <= j < i ==> #[trigger] words_view(lists@[j]@).len() == lists0[j].len(),
                forall|j: int|
                    0 <= j < i ==> #[trigger] words_view(lists@[j]@).to_multiset()
                        == lists0[j].to_multiset(),
            decreases words - i,
        {
            let role = role_at(words, i);
            let src = self.list_for(role);
            let mut copy = clone_words(src);
            proof {
                assert(words_view(src@) == lists0[i as int]);
            }
            shuffle_words(rng, &mut copy);
            lists.push(copy);
            positions.push(0);
            currents.push(None);
            i = i + 1;
        }
        let capacity = NamesProduct::capacity(&lists, separator);
        let r = NamesProduct {
            lists,
            positions,
            currents,
            separator: separator.to_owned(),
            capacity,
            done: false,
            steps: Ghost(0),
        };
        r
    }
}

} // verus!
