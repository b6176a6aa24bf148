//! Text primitives of the shell: the whitespace predicate, the split of a line
//! into words, and the order in which command names are listed.

use vstd::prelude::*;

verus! {

/// The code points with the Unicode property `White_Space`.
pub open spec fn is_space(c: char) -> bool {
    let n = c as u32;
    ||| 0x09 <= n <= 0x0D
    ||| n == 0x20
    ||| n == 0x85
    ||| n == 0xA0
    ||| n == 0x1680
    ||| 0x2000 <= n <= 0x200A
    ||| n == 0x2028
    ||| n == 0x2029
    ||| n == 0x202F
    ||| n == 0x205F
    ||| n == 0x3000
}

/// Number of consecutive non-space characters of `s` starting at index `i`.
pub open spec fn run_len(s: Seq<char>, i: int) -> nat
    decreases s.len() - i,
{
    if 0 <= i < s.len() && !is_space(s[i]) {
        1 + run_len(s, i + 1)
    } else {
        0
    }
}

/// The words of `s` from index `i` on: the maximal runs of non-space
/// characters, in the order in which they occur.
pub open spec fn words_from(s: Seq<char>, i: int) -> Seq<Seq<char>>
    decreases s.len() - i,
    via words_from_decreases
{
    if i < 0 || i >= s.len() {
        Seq::empty()
    } else if is_space(s[i]) {
        words_from(s, i + 1)
    } else {
        let end = i + run_len(s, i);
        seq![s.subrange(i, end)] + words_from(s, end)
    }
}

#[via_fn]
proof fn words_from_decreases(s: Seq<char>, i: int) {
    if 0 <= i < s.len() && !is_space(s[i]) {
        lemma_run_len_bounded(s, i);
    }
}

/// The words of a line: what is left of it once it is cut at every run of
/// whitespace. A blank line has none.
pub open spec fn words(s: Seq<char>) -> Seq<Seq<char>> {
    words_from(s, 0)
}

/// The views of a list of string slices, one for one.
pub open spec fn views(v: Seq<&str>) -> Seq<Seq<char>> {
    Seq::new(v.len(), |i: int| v[i]@)
}

/// A run of non-space characters ends inside the text, at a space or at the
/// end, and holds no space.
pub proof fn lemma_run_len_bounded(s: Seq<char>, i: int)
    requires
        0 <= i <= s.len(),
    ensures
        i + run_len(s, i) <= s.len(),
        i + run_len(s, i) < s.len() ==> is_space(s[i + run_len(s, i)]),
        forall|k: int| i <= k < i + run_len(s, i) ==> !is_space(#[trigger] s[k]),
        i < s.len() && !is_space(s[i]) ==> run_len(s, i) >= 1,
    decreases s.len() - i,
{
    if i < s.len() && !is_space(s[i]) {
        lemma_run_len_bounded(s, i + 1);
    }
}

/// A word: one character or more, none of them whitespace.
pub open spec fn is_word(w: Seq<char>) -> bool {
    w.len() > 0 && forall|k: int| 0 <= k < w.len() ==> !is_space(#[trigger] w[k])
}

/// Every word of a text is a word: it is not empty and holds no whitespace.
pub proof fn lemma_words_are_words(s: Seq<char>, i: int)
    requires
        0 <= i,
    ensures
        forall|j: int| 0 <= j < words_from(s, i).len() ==> is_word(#[trigger] words_from(s, i)[j]),
    decreases s.len() - i,
{
    if i < s.len() {
        if is_space(s[i]) {
            lemma_words_are_words(s, i + 1);
            assert(words_from(s, i) == words_from(s, i + 1));
        } else {
            let end = i + run_len(s, i);
            lemma_run_len_bounded(s, i);
            lemma_words_are_words(s, end);
            assert(words_from(s, i) == seq![s.subrange(i, end)] + words_from(s, end));
            let head = s.subrange(i, end);
            assert forall|k: int| 0 <= k < head.len() implies !is_space(#[trigger] head[k]) by {
                assert(head[k] == s[i + k]);
            }
            assert forall|j: int| 0 <= j < words_from(s, i).len() implies is_word(
                #[trigger] words_from(s, i)[j],
            ) by {
                if j > 0 {
                    assert(words_from(s, i)[j] == words_from(s, end)[j - 1]);
                }
            }
        }
    }
}

/// A text that holds nothing but whitespace from index `i` on has no words
/// from there.
pub proof fn lemma_blank_has_no_words(s: Seq<char>, i: int)
    requires
        0 <= i,
        forall|k: int| i <= k < s.len() ==> is_space(#[trigger] s[k]),
    ensures
        words_from(s, i).len() == 0,
    decreases s.len() - i,
{
    if i < s.len() {
        assert(is_space(s[i]));
        lemma_blank_has_no_words(s, i + 1);
    }
}

/// A stretch of `n` non-space characters from index `i`, followed by a space
/// or by the end of the text, is a whole run.
pub proof fn lemma_run_len_exact(s: Seq<char>, i: int, n: nat)
    requires
        0 <= i,
        i + n <= s.len(),
        forall|k: int| i <= k < i + n ==> !is_space(#[trigger] s[k]),
        i + n < s.len() ==> is_space(s[i + n]),
    ensures
        run_len(s, i) == n,
    decreases n,
{
    if n > 0 {
        assert(!is_space(s[i]));
        lemma_run_len_exact(s, i + 1, (n - 1) as nat);
    }
}

/// The first word of a text is its first stretch of non-space characters:
/// whitespace before it is skipped, and it ends where a space or the end of
/// the text follows, whatever comes after. The other words are those of the
/// rest of the text.
pub proof fn lemma_first_word(s: Seq<char>, i: int, n: nat)
    requires
        0 <= i,
        n > 0,
        i + n <= s.len(),
        forall|k: int| 0 <= k < i ==> is_space(#[trigger] s[k]),
        forall|k: int| i <= k < i + n ==> !is_space(#[trigger] s[k]),
        i + n < s.len() ==> is_space(s[i + n]),
    ensures
        words(s) == seq![s.subrange(i, i + n)] + words_from(s, i + n),
        words(s).len() > 0,
        words(s)[0] == s.subrange(i, i + n),
{
    lemma_run_len_exact(s, i, n);
    assert(!is_space(s[i]));
    assert(words_from(s, i) == seq![s.subrange(i, i + n)] + words_from(s, i + n));
    lemma_skip_leading(s, i, 0);
}

/// Whitespace before index `i` adds no word.
proof fn lemma_skip_leading(s: Seq<char>, i: int, j: int)
    requires
        0 <= j <= i <= s.len(),
        forall|k: int| j <= k < i ==> is_space(#[trigger] s[k]),
    ensures
        words_from(s, j) == words_from(s, i),
    decreases i - j,
{
    if j < i {
        assert(is_space(s[j]));
        lemma_skip_leading(s, i, j + 1);
    }
}

/// Tells whether `c` is a whitespace character.
pub fn is_whitespace(c: char) -> (b: bool)
    ensures
        b == is_space(c),
{
    let n: u32 = c as u32;
    (0x09 <= n && n <= 0x0D) || n == 0x20 || n == 0x85 || n == 0xA0 || n == 0x1680 || (0x2000 <= n
        && n <= 0x200A) || n == 0x2028 || n == 0x2029 || n == 0x202F || n == 0x205F || n == 0x3000
}

/// Splits a line into its words. Leading and trailing whitespace is ignored
/// and any run of whitespace separates two words.
pub fn split_words<'a>(line: &'a str) -> (out: Vec<&'a str>)
    ensures
        views(out@) == words(line@),
{
    let n: usize = line.unicode_len();
    let mut out: Vec<&'a str> = Vec::new();
    let mut i: usize = 0;
    while i < n
        invariant
            n == line@.len(),
            i <= n,
            views(out@) + words_from(line@, i as int) == words(line@),
        decreases n - i,
    {
        let c = line.get_char(i);
        if is_whitespace(c) {
            i += 1;
        } else {
            let start: usize = i;
            proof {
                lemma_run_len_bounded(line@, start as int);
            }
            let mut more: bool = true;
            while more
                invariant
                    n == line@.len(),
                    start <= i <= n,
                    start + run_len(line@, start as int) == i + run_len(line@, i as int),
                    !more ==> run_len(line@, i as int) == 0,
                decreases n - i + if more { 1int } else { 0int },
            {
                if i < n && !is_whitespace(line.get_char(i)) {
                    i += 1;
                } else {
                    more = false;
                }
            }
            let word: &'a str = line.substring_char(start, i);
            proof {
                let ghost before = out@;
                assert(views(before.push(word)) =~= views(before) + seq![word@]);
            }
            out.push(word);
        }
    }
    proof {
        assert(views(out@) + Seq::<Seq<char>>::empty() =~= views(out@));
    }
    out
}

/// How one name stands to another in the listing order.
#[derive(Clone, Copy, Debug, PartialEq, Eq, Structural)]
pub enum NameOrder {
    /// The first name is listed before the second.
    Before,
    /// The two names are the same.
    Same,
    /// The first name is listed after the second.
    After,
}

/// `a` and `b` agree on their first `k` characters, and at index `k` either
/// `a` ends while `b` goes on, or `a` holds the smaller code point.
pub open spec fn parts_at(a: Seq<char>, b: Seq<char>, k: int) -> bool {
    &&& 0 <= k <= a.len()
    &&& k < b.len()
    &&& forall|j: int| 0 <= j < k ==> a[j] == b[j]
    &&& k < a.len() ==> (a[k] as u32) < (b[k] as u32)
}

/// The lexicographic order of names by code point: `a` is a proper prefix of
/// `b`, or holds the smaller code point where the two first differ.
pub open spec fn precedes(a: Seq<char>, b: Seq<char>) -> bool {
    exists|k: int| parts_at(a, b, k)
}

/// The order is strict: a name that precedes another is different from it and
/// does not follow it.
pub proof fn lemma_precedes_strict(a: Seq<char>, b: Seq<char>)
    requires
        precedes(a, b),
    ensures
        a != b,
        !precedes(b, a),
{
    let k = choose|k: int| parts_at(a, b, k);
    if precedes(b, a) {
        let m = choose|m: int| parts_at(b, a, m);
        if k < m {
            assert(b[k] == a[k]);
        } else if m < k {
            assert(a[m] == b[m]);
        }
    }
}

/// The order is transitive.
pub proof fn lemma_precedes_transitive(a: Seq<char>, b: Seq<char>, c: Seq<char>)
    requires
        precedes(a, b),
        precedes(b, c),
    ensures
        precedes(a, c),
{
    let k = choose|k: int| parts_at(a, b, k);
    let m = choose|m: int| parts_at(b, c, m);
    if k <= m {
        assert(parts_at(a, c, k));
    } else {
        assert(parts_at(a, c, m));
    }
}

/// Compares two names in the listing order.
pub fn compare_names(a: &str, b: &str) -> (r: NameOrder)
    ensures
        r == NameOrder::Before <==> precedes(a@, b@),
        r == NameOrder::Same <==> a@ == b@,
        r == NameOrder::After <==> precedes(b@, a@),
{
    let la: usize = a.unicode_len();
    let lb: usize = b.unicode_len();
    let mut k: usize = 0;
    while k < la && k < lb
        invariant
            la == a@.len(),
            lb == b@.len(),
            k <= la,
            k <= lb,
            forall|j: int| 0 <= j < k ==> a@[j] == b@[j],
        decreases la - k,
    {
        let x: char = a.get_char(k);
        let y: char = b.get_char(k);
        if x != y {
            if (x as u32) < (y as u32) {
                proof {
                    assert(parts_at(a@, b@, k as int));
                    lemma_precedes_strict(a@, b@);
                }
                return NameOrder::Before;
            } else {
                proof {
                    assert(parts_at(b@, a@, k as int));
                    lemma_precedes_strict(b@, a@);
                }
                return NameOrder::After;
            }
        }
        k += 1;
    }
    if la == lb {
        proof {
            assert(a@ =~= b@);
            if precedes(a@, a@) {
                lemma_precedes_strict(a@, a@);
            }
        }
        NameOrder::Same
    } else if la < lb {
        proof {
            assert(parts_at(a@, b@, k as int));
            lemma_precedes_strict(a@, b@);
        }
        NameOrder::Before
    } else {
        proof {
            assert(parts_at(b@, a@, k as int));
            lemma_precedes_strict(b@, a@);
        }
        NameOrder::After
    }
}

} // verus!
