//! Text helpers over characters: lines, whitespace-separated words,
//! prefixes, substrings and UTF-8 length, each with its specification.

use vstd::prelude::*;

use crate::shell::{is_whitespace_char, string_push};
use vstd::string::StringExecFns;
use crate::util::is_unicode_whitespace;

verus! {

/// The characters of a string, in order.
pub fn chars_of(s: &str) -> (r: Vec<char>)
    ensures
        r@ == s@,
{
    broadcast use vstd::string::axiom_spec_iter;
    let mut out: Vec<char> = Vec::new();
    let chars = s.chars();
    for c in it: chars
        invariant
            it.seq() == s@,
            0 <= it.index() <= s@.len(),
            out@ == s@.subrange(0, it.index()),
    {
        out.push(c);
        proof {
            assert(out@ =~= s@.subrange(0, it.index() + 1));
        }
    }
    proof {
        assert(s@.subrange(0, s@.len() as int) =~= s@);
    }
    out
}

/// The string made of `v[from..to]`.
pub fn string_of(v: &Vec<char>, from: usize, to: usize) -> (r: String)
    requires
        from <= to <= v@.len(),
    ensures
        r@ == v@.subrange(from as int, to as int),
{
    let mut out = String::new();
    let mut i = from;
    while i < to
        invariant
            from <= i <= to <= v@.len(),
            out@ == v@.subrange(from as int, i as int),
        decreases to - i,
    {
        string_push(&mut out, v[i]);
        proof {
            assert(out@ =~= v@.subrange(from as int, i + 1));
        }
        i = i + 1;
    }
    out
}

/// A line without the carriage return that ended it, if any.
pub open spec fn strip_cr(l: Seq<char>) -> Seq<char> {
    if l.len() > 0 && l.last() == '\r' {
        l.drop_last()
    } else {
        l
    }
}

/// Finished lines and the line under way after the characters of `s`: a
/// newline ends the current line, taking off one carriage return before it.
pub open spec fn line_state(s: Seq<char>) -> (Seq<Seq<char>>, Seq<char>)
    decreases s.len(),
{
    if s.len() == 0 {
        (Seq::empty(), Seq::empty())
    } else {
        let st = line_state(s.drop_last());
        if s.last() == '\n' {
            (st.0.push(strip_cr(st.1)), Seq::empty())
        } else {
            (st.0, st.1.push(s.last()))
        }
    }
}

/// The lines of `s` (`str::lines`): split at `\n` or `\r\n`; a last line
/// without a newline counts when it is not empty, and keeps a trailing `\r`.
pub open spec fn lines_spec(s: Seq<char>) -> Seq<Seq<char>> {
    let st = line_state(s);
    if st.1.len() > 0 {
        st.0.push(st.1)
    } else {
        st.0
    }
}

/// Split text into its lines, as `lines_spec` states.
pub fn split_lines(s: &str) -> (r: Vec<String>)
    ensures
        r@.len() == lines_spec(s@).len(),
        forall|i: int| 0 <= i < r@.len() ==> #[trigger] r@[i]@ == lines_spec(s@)[i],
{
    let v = chars_of(s);
    let n = v.len();
    let mut lines: Vec<String> = Vec::new();
    let mut start: usize = 0;
    let mut i: usize = 0;
    while i < n
        invariant
            n == v@.len(),
            v@ == s@,
            start <= i <= n,
            lines@.len() == line_state(v@.subrange(0, i as int)).0.len(),
            forall|k: int|
                0 <= k < lines@.len() ==> #[trigger] lines@[k]@ == line_state(
                    v@.subrange(0, i as int),
                ).0[k],
            line_state(v@.subrange(0, i as int)).1 == v@.subrange(start as int, i as int),
        decreases n - i,
    {
        proof {
            assert(v@.subrange(0, i + 1).drop_last() =~= v@.subrange(0, i as int));
        }
        if v[i] == '\n' {
            let end = if i > start && v[i - 1] == '\r' {
                i - 1
            } else {
                i
            };
            let line = string_of(&v, start, end);
            proof {
                let cur = v@.subrange(start as int, i as int);
                assert(strip_cr(cur) =~= v@.subrange(start as int, end as int));
            }
            lines.push(line);
            start = i + 1;
            proof {
                assert(v@.subrange(start as int, i + 1) =~= Seq::<char>::empty());
            }
        } else {
            proof {
                assert(v@.subrange(start as int, i + 1) =~= v@.subrange(start as int, i as int).push(
                    v@[i as int],
                ));
            }
        }
        i = i + 1;
    }
    proof {
        assert(v@.subrange(0, n as int) =~= s@);
    }
    if start < n {
        let last = string_of(&v, start, n);
        lines.push(last);
    }
    lines
}

/// Finished words and the word under way after the characters of `s`:
/// Unicode whitespace ends a non-empty word.
pub open spec fn word_state(s: Seq<char>) -> (Seq<Seq<char>>, Seq<char>)
    decreases s.len(),
{
    if s.len() == 0 {
        (Seq::empty(), Seq::empty())
    } else {
        let st = word_state(s.drop_last());
        if is_unicode_whitespace(s.last()) {
            if st.1.len() > 0 {
                (st.0.push(st.1), Seq::empty())
            } else {
                st
            }
        } else {
            (st.0, st.1.push(s.last()))
        }
    }
}

/// The whitespace-separated words of `s` (`str::split_whitespace`).
pub open spec fn words_spec(s: Seq<char>) -> Seq<Seq<char>> {
    let st = word_state(s);
    if st.1.len() > 0 {
        st.0.push(st.1)
    } else {
        st.0
    }
}

/// Split text into its whitespace-separated words, as `words_spec` states.
pub fn split_words(s: &str) -> (r: Vec<String>)
    ensures
        r@.len() == words_spec(s@).len(),
        forall|i: int| 0 <= i < r@.len() ==> #[trigger] r@[i]@ == words_spec(s@)[i],
{
    broadcast use vstd::string::axiom_spec_iter;
    let mut words: Vec<String> = Vec::new();
    let mut current = String::new();
    let chars = s.chars();
    for c in it: chars
        invariant
            it.seq() == s@,
            0 <= it.index() <= s@.len(),
            words@.len() == word_state(s@.subrange(0, it.index())).0.len(),
            forall|i: int|
                0 <= i < words@.len() ==> #[trigger] words@[i]@ == word_state(
                    s@.subrange(0, it.index()),
                ).0[i],
            current@ == word_state(s@.subrange(0, it.index())).1,
    {
        proof {
            assert(s@.subrange(0, it.index() + 1).drop_last() =~= s@.subrange(0, it.index()));
        }
        if is_whitespace_char(c) {
            if !current.as_str().is_empty() {
                let w = current.clone();
                words.push(w);
                current = String::new();
            }
        } else {
            string_push(&mut current, c);
        }
    }
    proof {
        assert(s@.subrange(0, s@.len() as int) =~= s@);
    }
    if !current.as_str().is_empty() {
        words.push(current);
    }
    words
}

/// Whether `s` begins with `p`.
pub open spec fn starts_with_spec(s: Seq<char>, p: Seq<char>) -> bool {
    p.len() <= s.len() && s.subrange(0, p.len() as int) == p
}

/// Whether `p` occurs in `s` at position `i`.
pub open spec fn occurs_at(s: Seq<char>, p: Seq<char>, i: int) -> bool {
    0 <= i && i + p.len() <= s.len() && s.subrange(i, i + p.len()) == p
}

/// Whether `p` occurs anywhere in `s`.
pub open spec fn contains_spec(s: Seq<char>, p: Seq<char>) -> bool {
    exists|i: int| occurs_at(s, p, i)
}

/// Whether `p` occurs in `s` at position `i` (exec).
fn matches_at(s: &Vec<char>, p: &Vec<char>, i: usize) -> (r: bool)
    requires
        i <= s@.len(),
    ensures
        r == occurs_at(s@, p@, i as int),
{
    let sl = s.len();
    if p.len() > sl - i {
        return false;
    }
    let mut k: usize = 0;
    while k < p.len()
        invariant
            sl == s@.len(),
            i + p@.len() <= s@.len(),
            k <= p@.len(),
            forall|j: int| 0 <= j < k ==> s@[i + j] == p@[j],
        decreases p@.len() - k,
    {
        if s[i + k] != p[k] {
            proof {
                assert(s@.subrange(i as int, i + p@.len())[k as int] != p@[k as int]);
            }
            return false;
        }
        k = k + 1;
    }
    proof {
        assert(s@.subrange(i as int, i + p@.len()) =~= p@);
    }
    true
}

/// Whether two texts are equal.
pub fn text_eq(a: &str, b: &str) -> (r: bool)
    ensures
        r == (a@ == b@),
{
    let av = chars_of(a);
    let bv = chars_of(b);
    if av.len() != bv.len() {
        return false;
    }
    let r = matches_at(&av, &bv, 0);
    proof {
        assert(av@.subrange(0, bv@.len() as int) =~= av@);
    }
    r
}

/// The words of `ws` joined with single spaces.
pub open spec fn join_spec(ws: Seq<Seq<char>>) -> Seq<char>
    decreases ws.len(),
{
    if ws.len() == 0 {
        Seq::empty()
    } else if ws.len() == 1 {
        ws[0]
    } else {
        join_spec(ws.drop_last()) + seq![' '] + ws.last()
    }
}

/// The texts of a list of strings.
pub open spec fn texts(v: Seq<String>) -> Seq<Seq<char>> {
    v.map_values(|s: String| s@)
}

/// `words[from..]` joined with single spaces.
pub fn join_from(words: &Vec<String>, from: usize) -> (r: String)
    requires
        from <= words@.len(),
    ensures
        r@ == join_spec(texts(words@.subrange(from as int, words@.len() as int))),
{
    let mut out = String::new();
    let mut i = from;
    while i < words.len()
        invariant
            from <= i <= words@.len(),
            out@ == join_spec(texts(words@.subrange(from as int, i as int))),
        decreases words@.len() - i,
    {
        let ghost before = texts(words@.subrange(from as int, i as int));
        let ghost after = texts(words@.subrange(from as int, i + 1));
        proof {
            assert(after.drop_last() =~= before);
            assert(after.last() == words@[i as int]@);
        }
        if i > from {
            string_push(&mut out, ' ');
        }
        out.append(words[i].as_str());
        proof {
            if i > from {
                assert(out@ =~= join_spec(before) + seq![' '] + words@[i as int]@);
            } else {
                assert(after.len() == 1);
                assert(out@ =~= words@[i as int]@);
            }
        }
        i = i + 1;
    }
    out
}

/// Whether the text `s` begins with the text `p`.
pub fn starts_with(s: &str, p: &str) -> (r: bool)
    ensures
        r == starts_with_spec(s@, p@),
{
    let sv = chars_of(s);
    let pv = chars_of(p);
    matches_at(&sv, &pv, 0)
}

/// Whether the text `p` occurs in the text `s`.
pub fn contains(s: &str, p: &str) -> (r: bool)
    ensures
        r == contains_spec(s@, p@),
{
    let sv = chars_of(s);
    let pv = chars_of(p);
    let n = sv.len();
    let mut i: usize = 0;
    while i < n
        invariant
            n == sv@.len(),
            i <= n,
            sv@ == s@,
            pv@ == p@,
            forall|j: int| 0 <= j < i ==> !occurs_at(s@, p@, j),
        decreases n - i,
    {
        if matches_at(&sv, &pv, i) {
            return true;
        }
        i = i + 1;
    }
    if matches_at(&sv, &pv, n) {
        return true;
    }
    assert forall|j: int| !occurs_at(s@, p@, j) by {
        if 0 <= j && j + p@.len() <= s@.len() {
            assert(j <= n);
        }
    }
    false
}

/// Index of the first `c` in `s`, or `s.len()` when there is none.
pub open spec fn first_char_index(s: Seq<char>, c: char) -> int
    decreases s.len(),
{
    if s.len() == 0 {
        0
    } else if s[0] == c {
        0
    } else {
        1 + first_char_index(s.drop_first(), c)
    }
}

/// `first_char_index` is the first position of `c`, or the length.
pub proof fn lemma_first_char_index(s: Seq<char>, c: char)
    ensures
        0 <= first_char_index(s, c) <= s.len(),
        first_char_index(s, c) < s.len() ==> s[first_char_index(s, c)] == c,
        forall|j: int| 0 <= j < first_char_index(s, c) ==> s[j] != c,
    decreases s.len(),
{
    if s.len() > 0 && s[0] != c {
        lemma_first_char_index(s.drop_first(), c);
        assert forall|j: int| 0 <= j < first_char_index(s, c) implies s[j] != c by {
            if j > 0 {
                assert(s[j] == s.drop_first()[j - 1]);
            }
        }
    }
}

/// The index of the first `c` in `v[from..]`, relative to `from`, or the
/// length of that tail.
pub fn find_char(v: &Vec<char>, from: usize, c: char) -> (r: usize)
    requires
        from <= v@.len(),
    ensures
        r == first_char_index(v@.subrange(from as int, v@.len() as int), c),
{
    let ghost t = v@.subrange(from as int, v@.len() as int);
    proof {
        lemma_first_char_index(t, c);
    }
    let mut i = from;
    while i < v.len()
        invariant
            from <= i <= v@.len(),
            t == v@.subrange(from as int, v@.len() as int),
            forall|j: int| from <= j < i ==> v@[j] != c,
        decreases v@.len() - i,
    {
        if v[i] == c {
            proof {
                lemma_first_index_is(t, c, (i - from) as int);
            }
            return i - from;
        }
        i = i + 1;
    }
    proof {
        lemma_first_index_is(t, c, t.len() as int);
    }
    v.len() - from
}

/// A position before which `c` does not occur, and at which it occurs or
/// the text ends, is `first_char_index`.
proof fn lemma_first_index_is(s: Seq<char>, c: char, k: int)
    requires
        0 <= k <= s.len(),
        k < s.len() ==> s[k] == c,
        forall|j: int| 0 <= j < k ==> s[j] != c,
    ensures
        first_char_index(s, c) == k,
{
    lemma_first_char_index(s, c);
    let f = first_char_index(s, c);
    if f < k {
        assert(s[f] != c);
    }
    if k < f {
        assert(s[k] != c);
    }
}

/// Bytes that `c` takes in UTF-8.
pub open spec fn utf8_width(c: char) -> int {
    let v = c as u32;
    if v < 0x80 {
        1
    } else if v < 0x800 {
        2
    } else if v < 0x10000 {
        3
    } else {
        4
    }
}

/// Bytes that the characters of `s` take in UTF-8 (`str::len`).
pub open spec fn utf8_len(s: Seq<char>) -> int
    decreases s.len(),
{
    if s.len() == 0 {
        0
    } else {
        utf8_len(s.drop_last()) + utf8_width(s.last())
    }
}

/// The UTF-8 length of a prefix is at most that of the whole.
proof fn lemma_utf8_len_prefix(s: Seq<char>, i: int)
    requires
        0 <= i <= s.len(),
    ensures
        utf8_len(s.subrange(0, i)) <= utf8_len(s),
    decreases s.len() - i,
{
    if i < s.len() {
        lemma_utf8_len_prefix(s, i + 1);
        assert(s.subrange(0, i + 1).drop_last() =~= s.subrange(0, i));
    } else {
        assert(s.subrange(0, i) =~= s);
    }
}

/// Whether the text `s` takes exactly `n` bytes in UTF-8.
pub fn has_utf8_len(s: &str, n: usize) -> (r: bool)
    requires
        n <= 4096,
    ensures
        r == (utf8_len(s@) == n),
{
    let v = chars_of(s);
    let mut total: usize = 0;
    let mut i: usize = 0;
    while i < v.len()
        invariant
            v@ == s@,
            i <= v@.len(),
            total == utf8_len(v@.subrange(0, i as int)),
            total <= n,
            n <= 4096,
        decreases v@.len() - i,
    {
        let x = v[i] as u32;
        let w: usize = if x < 0x80 {
            1
        } else if x < 0x800 {
            2
        } else if x < 0x10000 {
            3
        } else {
            4
        };
        proof {
            assert(v@.subrange(0, i + 1).drop_last() =~= v@.subrange(0, i as int));
        }
        total = total + w;
        i = i + 1;
        if total > n {
            proof {
                lemma_utf8_len_prefix(v@, i as int);
            }
            return false;
        }
    }
    proof {
        assert(v@.subrange(0, v@.len() as int) =~= v@);
    }
    total == n
}

/// Whether the text `s` holds the character `c`.
pub fn contains_char(s: &str, c: char) -> (r: bool)
    ensures
        r == s@.contains(c),
{
    let v = chars_of(s);
    let k = find_char(&v, 0, c);
    proof {
        assert(v@.subrange(0, v@.len() as int) =~= v@);
        lemma_first_char_index(v@, c);
        if s@.contains(c) {
            let j = choose|j: int| 0 <= j < s@.len() && s@[j] == c;
            assert(!(j < k as int));
        }
    }
    k < v.len()
}

} // verus!
