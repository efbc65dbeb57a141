//! First letters of word lists: the alliteration support. A caller that
//! wants every word of a petname to start with the same letter filters
//! the lists by a letter that every list can supply.

use vstd::prelude::*;
use vstd::string::StrSliceExecFns;
use crate::text::words_view;

verus! {

/// Some word of `l` starts with the character `c`.
pub open spec fn has_first_letter(l: Seq<Seq<char>>, c: char) -> bool {
    exists|i: int| 0 <= i < l.len() && l[i].len() > 0 && l[i][0] == c
}

/// Whether `v` holds the character `c`.
pub fn contains_char(v: &Vec<char>, c: char) -> (b: bool)
    ensures
        b == v@.contains(c),
{
    let mut i: usize = 0;
    while i < v.len()
        invariant
            i <= v@.len(),
            forall|j: int| 0 <= j < i ==> v@[j] != c,
        decreases v@.len() - i,
    {
        if v[i] == c {
            return true;
        }
        i = i + 1;
    }
    false
}

/// The distinct first letters of the words of a list, in order of first
/// appearance.
pub fn first_letters(list: &Vec<String>) -> (r: Vec<char>)
    ensures
        forall|c: char| r@.contains(c) <==> has_first_letter(words_view(list@), c),
        r@.no_duplicates(),
{
    let ghost all = words_view(list@);
    let mut r: Vec<char> = Vec::new();
    let mut i: usize = 0;
    while i < list.len()
        invariant
            i <= list@.len(),
            all == words_view(list@),
            forall|c: char|
                r@.contains(c) <==> exists|j: int| 0 <= j < i && all[j].len() > 0 && all[j][0] == c,
            r@.no_duplicates(),
        decreases list@.len() - i,
    {
        let w: &String = &list[i];
        let ws: &str = w.as_str();
        if !ws.is_empty() {
            let c = ws.get_char(0);
            let seen = contains_char(&r, c);
            let ghost r0 = r@;
            if !seen {
                r.push(c);
            }
            proof {
                assert(all[i as int][0] == c);
                assert forall|d: char| r@.contains(d) implies exists|j: int|
                    0 <= j < i + 1 && all[j].len() > 0 && all[j][0] == d by {
                    if d == c {
                        assert(all[i as int].len() > 0 && all[i as int][0] == d);
                    } else {
                        assert(r0.contains(d));
                    }
                }
                assert forall|d: char| (exists|j: int|
                    0 <= j < i + 1 && all[j].len() > 0 && all[j][0] == d) implies r@.contains(
                    d,
                ) by {
                    if d == c {
                        if seen {
                            assert(r@.contains(d));
                        } else {
                            assert(r@[r@.len() - 1] == c);
                        }
                    } else {
                        let j = choose|j: int| 0 <= j < i + 1 && all[j].len() > 0 && all[j][0] == d;
                        assert(0 <= j < i);
                        assert(r0.contains(d));
                        if !seen {
                            let q = choose|q: int| 0 <= q < r0.len() && r0[q] == d;
                            assert(r@[q] == d);
                        }
                    }
                }
            }
        }
        i = i + 1;
    }
    r
}

/// The letters with which every one of the three lists can begin a word:
/// the first letters the lists have in common.
pub fn common_first_letters(a: &Vec<String>, b: &Vec<String>, c: &Vec<String>) -> (r: Vec<char>)
    ensures
        forall|d: char|
            r@.contains(d) <==> has_first_letter(words_view(a@), d) && has_first_letter(
                words_view(b@),
                d,
            ) && has_first_letter(words_view(c@), d),
        r@.no_duplicates(),
{
    let fa = first_letters(a);
    let fb = first_letters(b);
    let fc = first_letters(c);
    let mut r: Vec<char> = Vec::new();
    let mut i: usize = 0;
    while i < fa.len()
        invariant
            i <= fa@.len(),
            forall|d: char| fa@.contains(d) <==> has_first_letter(words_view(a@), d),
            forall|d: char| fb@.contains(d) <==> has_first_letter(words_view(b@), d),
            forall|d: char| fc@.contains(d) <==> has_first_letter(words_view(c@), d),
            fa@.no_duplicates(),
            forall|d: char|
                r@.contains(d) <==> exists|j: int|
                    0 <= j < i && fa@[j] == d && fb@.contains(d) && fc@.contains(d),
            r@.no_duplicates(),
        decreases fa@.len() - i,
    {
        let d = fa[i];
        let ghost r0 = r@;
        let in_b = contains_char(&fb, d);
        let in_c = contains_char(&fc, d);
        if in_b && in_c {
            r.push(d);
            proof {
                if r0.contains(d) {
                    let j = choose|j: int|
                        0 <= j < i && fa@[j] == d && fb@.contains(d) && fc@.contains(d);
                    assert(fa@[j] == fa@[i as int]);
                    assert(false);
                }
            }
        }
        proof {
            assert forall|e: char| r@.contains(e) implies exists|j: int|
                0 <= j < i + 1 && fa@[j] == e && fb@.contains(e) && fc@.contains(e) by {
                if r0.contains(e) {
                } else {
                    assert(e == d);
                    assert(fa@[i as int] == e);
                }
            }
            assert forall|e: char| (exists|j: int|
                0 <= j < i + 1 && fa@[j] == e && fb@.contains(e) && fc@.contains(e)) implies
                r@.contains(e) by {
                let j = choose|j: int|
                    0 <= j < i + 1 && fa@[j] == e && fb@.contains(e) && fc@.contains(e);
                if j < i {
                    assert(r0.contains(e));
                    if in_b && in_c {
                        let q = choose|q: int| 0 <= q < r0.len() && r0[q] == e;
                        assert(r@[q] == e);
                    }
                } else {
                    assert(e == d);
                    assert(r@[r@.len() - 1] == d);
                }
            }
        }
        i = i + 1;
    }
    proof {
        assert forall|d: char| r@.contains(d) implies has_first_letter(words_view(a@), d)
            && has_first_letter(words_view(b@), d) && has_first_letter(words_view(c@), d) by {
            let j = choose|j: int|
                0 <= j < i && fa@[j] == d && fb@.contains(d) && fc@.contains(d);
            assert(fa@.contains(d));
        }
        assert forall|d: char|
            has_first_letter(words_view(a@), d) && has_first_letter(words_view(b@), d)
                && has_first_letter(words_view(c@), d) implies r@.contains(d) by {
            assert(fa@.contains(d));
            let j = choose|j: int| 0 <= j < fa@.len() && fa@[j] == d;
            assert(0 <= j < i && fa@[j] == d && fb@.contains(d) && fc@.contains(d));
        }
    }
    r
}

} // verus!
