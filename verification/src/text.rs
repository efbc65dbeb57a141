//! Splitting text into whitespace-delimited words, and joining words with a
//! separator. These two operations define how word lists are read from text
//! blobs and how the words of a generated name are assembled.

use vstd::prelude::*;
use vstd::string::StrSliceExecFns;
use vstd::string::StringExecFns;

verus! {

/// The view of a word list: each word as its sequence of characters.
pub open spec fn words_view(s: Seq<String>) -> Seq<Seq<char>> {
    s.map_values(|w: String| w@)
}

/// Unicode white space, the characters on which words are split.
pub open spec fn is_space(c: char) -> bool {
    let u = c as u32;
    u == 0x20 || (0x09 <= u && u <= 0x0d) || u == 0x85 || u == 0xa0 || u == 0x1680 || (0x2000 <= u
        && u <= 0x200a) || u == 0x2028 || u == 0x2029 || u == 0x202f || u == 0x205f || u == 0x3000
}

/// Runtime test for `is_space`.
pub fn is_space_char(c: char) -> (b: bool)
    ensures
        b == is_space(c),
{
    let u = c as u32;
    u == 0x20 || (0x09 <= u && u <= 0x0d) || u == 0x85 || u == 0xa0 || u == 0x1680 || (0x2000 <= u
        && u <= 0x200a) || u == 0x2028 || u == 0x2029 || u == 0x202f || u == 0x205f || u == 0x3000
}

/// The position just past the run of non-space characters starting at `i`.
pub open spec fn run_end(s: Seq<char>, i: int) -> int
    decreases s.len() - i,
{
    if i < 0 || i >= s.len() || is_space(s[i]) {
        i
    } else {
        run_end(s, i + 1)
    }
}

pub proof fn lemma_run_end(s: Seq<char>, i: int)
    requires
        0 <= i <= s.len(),
    ensures
        i <= run_end(s, i) <= s.len(),
        forall|j: int| i <= j < run_end(s, i) ==> !is_space(s[j]),
        run_end(s, i) == s.len() || is_space(s[run_end(s, i)]),
    decreases s.len() - i,
{
    if i < s.len() && !is_space(s[i]) {
        lemma_run_end(s, i + 1);
    }
}

/// The whitespace-delimited words of `s` from position `i` on: maximal runs
/// of non-space characters, in order, with empty tokens discarded.
pub open spec fn split_from(s: Seq<char>, i: int) -> Seq<Seq<char>>
    decreases s.len() - i,
{
    if i < 0 || i >= s.len() {
        Seq::empty()
    } else if is_space(s[i]) {
        split_from(s, i + 1)
    } else {
        proof {
            lemma_run_end(s, i + 1);
        }
        seq![s.subrange(i, run_end(s, i))] + split_from(s, run_end(s, i))
    }
}

/// The whitespace-delimited words of a whole text.
pub open spec fn split_whitespace_spec(s: Seq<char>) -> Seq<Seq<char>> {
    split_from(s, 0)
}

proof fn lemma_split_from_clean(s: Seq<char>, i: int)
    requires
        0 <= i <= s.len(),
    ensures
        forall|k: int|
            0 <= k < split_from(s, i).len() ==> (#[trigger] split_from(s, i)[k]).len() > 0 && (
            forall|j: int| 0 <= j < split_from(s, i)[k].len() ==> !is_space(split_from(s, i)[k][j])),
    decreases s.len() - i,
{
    if i < s.len() {
        if is_space(s[i]) {
            lemma_split_from_clean(s, i + 1);
            assert forall|k: int| 0 <= k < split_from(s, i).len() implies (#[trigger] split_from(
                s,
                i,
            )[k]).len() > 0 && (forall|j: int|
                0 <= j < split_from(s, i)[k].len() ==> !is_space(split_from(s, i)[k][j])) by {
                assert(split_from(s, i)[k] == split_from(s, i + 1)[k]);
            }
        } else {
            lemma_run_end(s, i);
            let e = run_end(s, i);
            lemma_split_from_clean(s, e);
            let w = s.subrange(i, e);
            assert(w.len() > 0);
            assert(forall|j: int| 0 <= j < w.len() ==> !is_space(w[j]));
            assert forall|k: int| 0 <= k < split_from(s, i).len() implies (#[trigger] split_from(
                s,
                i,
            )[k]).len() > 0 && (forall|j: int|
                0 <= j < split_from(s, i)[k].len() ==> !is_space(split_from(s, i)[k][j])) by {
                if k == 0 {
                    assert(split_from(s, i)[0] == w);
                } else {
                    assert(split_from(s, i)[k] == split_from(s, e)[k - 1]);
                }
            }
        }
    }
}

/// Splitting discards empty tokens and separators: every word of the
/// split is non-empty and holds no white space.
pub proof fn lemma_split_words_clean(s: Seq<char>)
    ensures
        forall|k: int|
            0 <= k < split_whitespace_spec(s).len() ==> (#[trigger] split_whitespace_spec(
                s,
            )[k]).len() > 0 && (forall|j: int|
                0 <= j < split_whitespace_spec(s)[k].len() ==> !is_space(
                    split_whitespace_spec(s)[k][j],
                )),
{
    lemma_split_from_clean(s, 0);
}

/// Splits a text into its whitespace-delimited words.
pub fn split_words(s: &str) -> (r: Vec<String>)
    ensures
        words_view(r@) == split_whitespace_spec(s@),
{
    let n = s.unicode_len();
    let mut out: Vec<String> = Vec::new();
    let mut i: usize = 0;
    while i < n
        invariant
            n == s@.len(),
            i <= n,
            split_whitespace_spec(s@) =~= words_view(out@) + split_from(s@, i as int),
        decreases n - i,
    {
        let c = s.get_char(i);
        if is_space_char(c) {
            i = i + 1;
        } else {
            proof {
                lemma_run_end(s@, i as int);
            }
            let mut j = i + 1;
            while j < n && !is_space_char(s.get_char(j))
                invariant
                    n == s@.len(),
                    i < j <= n,
                    run_end(s@, i as int) == run_end(s@, j as int),
                decreases n - j,
            {
                j = j + 1;
            }
            assert(run_end(s@, i as int) == j as int);
            let w = s.substring_char(i, j);
            out.push(w.to_owned());
            proof {
                assert(words_view(out@) =~= words_view(out@.drop_last()) + seq![
                    s@.subrange(i as int, j as int),
                ]);
            }
            i = j;
        }
    }
    proof {
        assert(words_view(out@) + split_from(s@, i as int) =~= words_view(out@));
    }
    out
}

/// The words of `parts` joined in order, with `sep` between adjacent words.
pub open spec fn join_with(parts: Seq<Seq<char>>, sep: Seq<char>) -> Seq<char>
    decreases parts.len(),
{
    if parts.len() == 0 {
        Seq::empty()
    } else if parts.len() == 1 {
        parts[0]
    } else {
        parts[0] + sep + join_with(parts.drop_first(), sep)
    }
}

pub proof fn lemma_join_push(parts: Seq<Seq<char>>, sep: Seq<char>, w: Seq<char>)
    ensures
        parts.len() == 0 ==> join_with(parts.push(w), sep) == w,
        parts.len() > 0 ==> join_with(parts.push(w), sep) == join_with(parts, sep) + sep + w,
    decreases parts.len(),
{
    if parts.len() == 0 {
        assert(parts.push(w)[0] == w);
    } else if parts.len() == 1 {
        assert(parts.push(w).drop_first() =~= seq![w]);
        assert(parts.push(w)[0] == parts[0]);
        assert(join_with(seq![w], sep) == seq![w][0]);
        assert(seq![w][0] == w);
    } else {
        lemma_join_push(parts.drop_first(), sep, w);
        assert(parts.push(w).drop_first() =~= parts.drop_first().push(w));
        assert(join_with(parts.push(w).drop_first(), sep) == join_with(parts.drop_first(), sep)
            + sep + w);
        assert(parts[0] + sep + (join_with(parts.drop_first(), sep) + sep + w) =~= (parts[0] + sep
            + join_with(parts.drop_first(), sep)) + sep + w);
    }
}

/// Relies on String::with_capacity: a new, empty string.
#[verifier::external_body]
pub(crate) fn string_with_capacity(capacity: usize) -> (r: String)
    ensures
        r@ == Seq::<char>::empty(),
{
    String::with_capacity(capacity)
}

/// Joins the given words with the separator, in order.
pub fn join_words(parts: &Vec<String>, sep: &str) -> (r: String)
    ensures
        r@ == join_with(words_view(parts@), sep@),
{
    join_words_into(String::new(), parts, sep)
}

/// Joins the given words with the separator, starting from a string
/// allocated with the given capacity hint.
pub fn join_words_with_capacity(parts: &Vec<String>, sep: &str, capacity: usize) -> (r: String)
    ensures
        r@ == join_with(words_view(parts@), sep@),
{
    join_words_into(string_with_capacity(capacity), parts, sep)
}

fn join_words_into(out: String, parts: &Vec<String>, sep: &str) -> (r: String)
    requires
        out@ == Seq::<char>::empty(),
    ensures
        r@ == join_with(words_view(parts@), sep@),
{
    let mut out = out;
    let mut i: usize = 0;
    while i < parts.len()
        invariant
            i <= parts@.len(),
            out@ == join_with(words_view(parts@).take(i as int), sep@),
        decreases parts@.len() - i,
    {
        if i > 0 {
            out.append(sep);
        }
        let w: &String = &parts[i];
        out.append(w.as_str());
        proof {
            let ghost views = words_view(parts@);
            assert(views.take(i + 1) =~= views.take(i as int).push(views[i as int]));
            lemma_join_push(views.take(i as int), sep@, views[i as int]);
        }
        i = i + 1;
    }
    proof {
        assert(words_view(parts@).take(parts@.len() as int) =~= words_view(parts@));
    }
    out
}

} // verus!
