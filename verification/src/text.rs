//! Character-level text handling: whitespace, trimming, line splitting,
//! `key: value` pairs, decimal numbers.
use vstd::prelude::*;

verus! {

/// The Unicode `White_Space` property, which `char::is_whitespace` tests.
pub open spec fn is_space(c: char) -> bool {
    let u = c as u32;
    ||| 0x9 <= u <= 0xD
    ||| u == 0x20
    ||| u == 0x85
    ||| u == 0xA0
    ||| u == 0x1680
    ||| 0x2000 <= u <= 0x200A
    ||| u == 0x2028
    ||| u == 0x2029
    ||| u == 0x202F
    ||| u == 0x205F
    ||| u == 0x3000
}

/// Whether `c` is Unicode white space.
pub fn is_space_char(c: char) -> (b: bool)
    ensures
        b == is_space(c),
{
    let u = c as u32;
    (0x9 <= u && u <= 0xD) || u == 0x20 || u == 0x85 || u == 0xA0 || u == 0x1680 || (0x2000 <= u
        && u <= 0x200A) || u == 0x2028 || u == 0x2029 || u == 0x202F || u == 0x205F || u == 0x3000
}

/// `s` without its leading white space.
pub open spec fn trim_start(s: Seq<char>) -> Seq<char>
    decreases s.len(),
{
    if s.len() > 0 && is_space(s[0]) {
        trim_start(s.drop_first())
    } else {
        s
    }
}

/// `s` without its trailing white space.
pub open spec fn trim_end(s: Seq<char>) -> Seq<char>
    decreases s.len(),
{
    if s.len() > 0 && is_space(s.last()) {
        trim_end(s.drop_last())
    } else {
        s
    }
}

/// `s` without leading and trailing white space (what `str::trim` gives).
pub open spec fn trim(s: Seq<char>) -> Seq<char> {
    trim_end(trim_start(s))
}

/// Trimming the start drops the longest run of white space at the start.
pub proof fn lemma_trim_start_drops_spaces(s: Seq<char>)
    ensures
        exists|k: int|
            0 <= k <= s.len() && trim_start(s) == s.skip(k) && (forall|i: int|
                0 <= i < k ==> is_space(#[trigger] s[i])) && (k < s.len() ==> !is_space(s[k])),
    decreases s.len(),
{
    if s.len() > 0 && is_space(s[0]) {
        let t = s.drop_first();
        lemma_trim_start_drops_spaces(t);
        let k = choose|k: int|
            0 <= k <= t.len() && trim_start(t) == t.skip(k) && (forall|i: int|
                0 <= i < k ==> is_space(#[trigger] t[i])) && (k < t.len() ==> !is_space(t[k]));
        assert(t.skip(k) =~= s.skip(k + 1));
        assert forall|i: int| 0 <= i < k + 1 implies is_space(#[trigger] s[i]) by {
            if i > 0 {
                assert(s[i] == t[i - 1]);
            }
        }
        if k + 1 < s.len() {
            assert(s[k + 1] == t[k]);
        }
    } else {
        assert(s.skip(0) =~= s);
    }
}

/// Trimming the end drops the longest run of white space at the end.
pub proof fn lemma_trim_end_drops_spaces(s: Seq<char>)
    ensures
        exists|k: int|
            0 <= k <= s.len() && trim_end(s) == s.take(k) && (forall|i: int|
                k <= i < s.len() ==> is_space(#[trigger] s[i])) && (k > 0 ==> !is_space(s[k - 1])),
    decreases s.len(),
{
    if s.len() > 0 && is_space(s.last()) {
        let t = s.drop_last();
        lemma_trim_end_drops_spaces(t);
        let k = choose|k: int|
            0 <= k <= t.len() && trim_end(t) == t.take(k) && (forall|i: int|
                k <= i < t.len() ==> is_space(#[trigger] t[i])) && (k > 0 ==> !is_space(t[k - 1]));
        assert(t.take(k) =~= s.take(k));
        assert forall|i: int| k <= i < s.len() implies is_space(#[trigger] s[i]) by {
            if i < t.len() {
                assert(s[i] == t[i]);
            }
        }
        if k > 0 {
            assert(s[k - 1] == t[k - 1]);
        }
    } else {
        assert(s.take(s.len() as int) =~= s);
    }
}

/// Trimming keeps the part of a text between its leading and its trailing
/// white space: a stretch `s[a..b]` with only white space before and after it,
/// which starts and ends with a character that is not white space where it is
/// not empty.
pub proof fn lemma_trim_keeps_middle(s: Seq<char>)
    ensures
        exists|a: int, b: int|
            0 <= a <= b <= s.len() && trim(s) == s.subrange(a, b) && (forall|i: int|
                0 <= i < a ==> is_space(#[trigger] s[i])) && (forall|i: int|
                b <= i < s.len() ==> is_space(#[trigger] s[i])) && (a < b ==> !is_space(s[a])
                && !is_space(s[b - 1])),
{
    lemma_trim_start_drops_spaces(s);
    let a = choose|k: int|
        0 <= k <= s.len() && trim_start(s) == s.skip(k) && (forall|i: int|
            0 <= i < k ==> is_space(#[trigger] s[i])) && (k < s.len() ==> !is_space(s[k]));
    let t = s.skip(a);
    lemma_trim_end_drops_spaces(t);
    let k = choose|k: int|
        0 <= k <= t.len() && trim_end(t) == t.take(k) && (forall|i: int|
            k <= i < t.len() ==> is_space(#[trigger] t[i])) && (k > 0 ==> !is_space(t[k - 1]));
    let b = a + k;
    assert(t.take(k) =~= s.subrange(a, b));
    assert forall|i: int| b <= i < s.len() implies is_space(#[trigger] s[i]) by {
        assert(s[i] == t[i - a]);
    }
    if a < b {
        assert(s[a] == t[0]);
        assert(s[b - 1] == t[k - 1]);
    }
}

/// The position of the first `x` in `s`, or `s.len()` where there is none.
pub open spec fn first_index<T>(s: Seq<T>, x: T) -> int
    decreases s.len(),
{
    if s.len() == 0 {
        0
    } else if s[0] == x {
        0
    } else {
        1 + first_index(s.drop_first(), x)
    }
}

/// What `first_index` gives: a position no later than the end, before which no `x` stands.
pub proof fn lemma_first_index<T>(s: Seq<T>, x: T)
    ensures
        0 <= first_index(s, x) <= s.len(),
        first_index(s, x) < s.len() ==> s[first_index(s, x)] == x,
        forall|k: int| 0 <= k < first_index(s, x) ==> s[k] != x,
    decreases s.len(),
{
    if s.len() > 0 && s[0] != x {
        lemma_first_index(s.drop_first(), x);
        assert forall|k: int| 0 <= k < first_index(s, x) implies s[k] != x by {
            if k > 0 {
                assert(s[k] == s.drop_first()[k - 1]);
            }
        }
    }
}

/// A position `j` with no `x` before it, and `x` at it or the end there, is `first_index`.
pub proof fn lemma_first_index_at<T>(s: Seq<T>, x: T, j: int)
    requires
        0 <= j <= s.len(),
        j < s.len() ==> s[j] == x,
        forall|k: int| 0 <= k < j ==> s[k] != x,
    ensures
        first_index(s, x) == j,
    decreases s.len(),
{
    if s.len() > 0 && j > 0 {
        assert(s[0] != x);
        assert forall|k: int| 0 <= k < j - 1 implies s.drop_first()[k] != x by {
            assert(s.drop_first()[k] == s[k + 1]);
        }
        lemma_first_index_at(s.drop_first(), x, j - 1);
    }
}

/// A line without the `'\r'` of a `"\r\n"` terminator.
pub open spec fn strip_cr(line: Seq<char>) -> Seq<char> {
    if line.len() > 0 && line.last() == '\r' {
        line.drop_last()
    } else {
        line
    }
}

/// The lines of a text: split at `'\n'`, a `'\r'` right before a `'\n'` dropped,
/// and no empty line after a final terminator (the lines that `str::lines` yields).
pub open spec fn text_lines(s: Seq<char>) -> Seq<Seq<char>>
    decreases s.len(),
{
    if s.len() == 0 {
        seq![]
    } else {
        let j = first_index(s, '\n');
        if 0 <= j < s.len() {
            seq![strip_cr(s.take(j))] + text_lines(s.skip(j + 1))
        } else {
            seq![s]
        }
    }
}

/// The texts that `ranges` mark in `s`.
pub open spec fn range_texts(s: Seq<char>, ranges: Seq<(usize, usize)>) -> Seq<Seq<char>> {
    ranges.map_values(|r: (usize, usize)| s.subrange(r.0 as int, r.1 as int))
}

/// Whether every range lies within a text of length `n`.
pub open spec fn ranges_within(ranges: Seq<(usize, usize)>, n: int) -> bool {
    forall|i: int| 0 <= i < ranges.len() ==> #[trigger] ranges[i].0 <= ranges[i].1 <= n
}

/// The characters of `s`, one by one.
pub fn chars_of(s: &str) -> (res: Vec<char>)
    ensures
        res@ == s@,
{
    let mut res: Vec<char> = Vec::new();
    for c in it: s.chars()
        invariant
            res@ == it.seq().take(it.index() as int),
    {
        res.push(c);
    }
    assert(res@ == s@);
    res
}


/// The position of the first `x` in `chars` at or after `from`, or the length where there is none.
pub fn find_char(chars: &Vec<char>, from: usize, x: char) -> (j: usize)
    requires
        from <= chars.len(),
    ensures
        from <= j <= chars.len(),
        j == from + first_index(chars@.skip(from as int), x),
{
    let n = chars.len();
    let mut j = from;
    while j < n && chars[j] != x
        invariant
            from <= j <= n,
            n == chars.len(),
            forall|k: int| from <= k < j ==> chars@[k] != x,
        decreases n - j,
    {
        j += 1;
    }
    proof {
        let t = chars@.skip(from as int);
        assert forall|k: int| 0 <= k < j - from implies t[k] != x by {
            assert(t[k] == chars@[from + k]);
        }
        lemma_first_index_at(t, x, j - from);
    }
    j
}

/// The lines of a text, as ranges of character positions.
pub fn line_ranges(chars: &Vec<char>) -> (res: Vec<(usize, usize)>)
    ensures
        ranges_within(res@, chars.len() as int),
        range_texts(chars@, res@) == text_lines(chars@),
{
    let n = chars.len();
    let mut res: Vec<(usize, usize)> = Vec::new();
    let mut pos: usize = 0;
    assert(chars@.skip(0) =~= chars@);
    while pos < n
        invariant
            pos <= n,
            n == chars.len(),
            ranges_within(res@, n as int),
            range_texts(chars@, res@) + text_lines(chars@.skip(pos as int)) == text_lines(chars@),
        decreases n - pos,
    {
        let ghost rest = chars@.skip(pos as int);
        let j = find_char(chars, pos, '\n');
        let ghost old_res = res@;
        if j < n {
            let end: usize = if j > pos && chars[j - 1] == '\r' {
                j - 1
            } else {
                j
            };
            res.push((pos, end));
            proof {
                let k = j - pos;
                assert(rest.take(k) =~= chars@.subrange(pos as int, j as int));
                assert(rest.skip(k + 1) =~= chars@.skip(j + 1));
                assert(strip_cr(rest.take(k)) =~= chars@.subrange(pos as int, end as int));
                assert(text_lines(rest) == seq![strip_cr(rest.take(k))] + text_lines(rest.skip(k + 1)));
                assert(range_texts(chars@, res@) =~= range_texts(chars@, old_res).push(
                    chars@.subrange(pos as int, end as int),
                ));
                assert(range_texts(chars@, res@) + text_lines(chars@.skip(j + 1)) =~= range_texts(
                    chars@,
                    old_res,
                ) + text_lines(rest));
            }
            pos = j + 1;
        } else {
            res.push((pos, n));
            proof {
                assert(rest =~= chars@.subrange(pos as int, n as int));
                assert(text_lines(rest) == seq![rest]);
                assert(chars@.skip(n as int) =~= Seq::<char>::empty());
                assert(text_lines(chars@.skip(n as int)) =~= Seq::<Seq<char>>::empty());
                assert(range_texts(chars@, res@) =~= range_texts(chars@, old_res).push(rest));
                assert(range_texts(chars@, res@) + text_lines(chars@.skip(n as int)) =~= range_texts(
                    chars@,
                    old_res,
                ) + text_lines(rest));
            }
            pos = n;
        }
    }
    proof {
        assert(chars@.skip(n as int) =~= Seq::<char>::empty());
        assert(range_texts(chars@, res@) + text_lines(chars@.skip(pos as int)) =~= range_texts(
            chars@,
            res@,
        ));
    }
    res
}

/// The range of `chars[lo..hi]` that remains once white space is trimmed from both ends.
pub fn trim_range(chars: &Vec<char>, lo: usize, hi: usize) -> (res: (usize, usize))
    requires
        lo <= hi <= chars.len(),
    ensures
        lo <= res.0 <= res.1 <= hi,
        chars@.subrange(res.0 as int, res.1 as int) == trim(chars@.subrange(lo as int, hi as int)),
{
    let mut a = lo;
    while a < hi && is_space_char(chars[a])
        invariant
            lo <= a <= hi <= chars.len(),
            trim_start(chars@.subrange(a as int, hi as int)) == trim_start(
                chars@.subrange(lo as int, hi as int),
            ),
        decreases hi - a,
    {
        assert(chars@.subrange(a as int, hi as int).drop_first() =~= chars@.subrange(
            a + 1,
            hi as int,
        ));
        a += 1;
    }
    assert(trim_start(chars@.subrange(a as int, hi as int)) == chars@.subrange(a as int, hi as int));
    let mut b = hi;
    while b > a && is_space_char(chars[b - 1])
        invariant
            lo <= a <= b <= hi <= chars.len(),
            trim_end(chars@.subrange(a as int, b as int)) == trim_end(
                chars@.subrange(a as int, hi as int),
            ),
        decreases b - a,
    {
        assert(chars@.subrange(a as int, b as int).drop_last() =~= chars@.subrange(
            a as int,
            b - 1,
        ));
        b -= 1;
    }
    assert(trim_end(chars@.subrange(a as int, b as int)) == chars@.subrange(a as int, b as int));
    (a, b)
}

/// Whether `chars[lo..hi]` spells `word`.
pub fn range_equals(chars: &Vec<char>, lo: usize, hi: usize, word: &Vec<char>) -> (b: bool)
    requires
        lo <= hi <= chars.len(),
    ensures
        b == (chars@.subrange(lo as int, hi as int) == word@),
{
    if hi - lo != word.len() {
        return false;
    }
    let mut i: usize = 0;
    while i < word.len()
        invariant
            lo <= hi <= chars.len(),
            hi - lo == word.len(),
            i <= word.len(),
            forall|k: int| 0 <= k < i ==> chars@[lo + k] == word@[k],
        decreases word.len() - i,
    {
        if chars[lo + i] != word[i] {
            assert(chars@.subrange(lo as int, hi as int)[i as int] != word@[i as int]);
            return false;
        }
        i += 1;
    }
    assert(chars@.subrange(lo as int, hi as int) =~= word@);
    true
}

/// The key and the value of a `key: value` line: the line is trimmed and split at
/// its first `':'`, and both parts are trimmed. `None` where the line holds no `':'`.
pub open spec fn key_value(line: Seq<char>) -> Option<(Seq<char>, Seq<char>)> {
    let t = trim(line);
    let k = first_index(t, ':');
    if k < t.len() {
        Some((trim(t.take(k)), trim(t.skip(k + 1))))
    } else {
        None
    }
}

/// Finds the key and the value of the `key: value` line `chars[lo..hi]`, as ranges.
pub fn key_value_ranges(chars: &Vec<char>, lo: usize, hi: usize) -> (res: Option<
    ((usize, usize), (usize, usize)),
>)
    requires
        lo <= hi <= chars.len(),
    ensures
        match res {
            Some(((ka, kb), (va, vb))) => {
                &&& lo <= ka <= kb <= hi
                &&& lo <= va <= vb <= hi
                &&& key_value(chars@.subrange(lo as int, hi as int)) == Some(
                    (chars@.subrange(ka as int, kb as int), chars@.subrange(va as int, vb as int)),
                )
            },
            None => key_value(chars@.subrange(lo as int, hi as int)) is None,
        },
{
    let (a, b) = trim_range(chars, lo, hi);
    let ghost t = chars@.subrange(a as int, b as int);
    let mut j = a;
    while j < b && chars[j] != ':'
        invariant
            a <= j <= b <= chars.len(),
            forall|k: int| a <= k < j ==> chars@[k] != ':',
        decreases b - j,
    {
        j += 1;
    }
    proof {
        assert forall|k: int| 0 <= k < j - a implies t[k] != ':' by {
            assert(t[k] == chars@[a + k]);
        }
        lemma_first_index_at(t, ':', j - a);
    }
    if j == b {
        return None;
    }
    let key = trim_range(chars, a, j);
    let value = trim_range(chars, j + 1, b);
    proof {
        assert(t.take(j - a) =~= chars@.subrange(a as int, j as int));
        assert(t.skip(j - a + 1) =~= chars@.subrange(j + 1, b as int));
    }
    Some((key, value))
}

/// `c` with ASCII capitals made small; other characters unchanged.
pub open spec fn ascii_lower(c: char) -> char {
    if 'A' <= c <= 'Z' {
        ((c as u32) + 32) as char
    } else {
        c
    }
}

/// Whether two texts are equal once ASCII letters are compared without case
/// (what `str::eq_ignore_ascii_case` tests).
pub open spec fn eq_ignore_ascii_case(a: Seq<char>, b: Seq<char>) -> bool {
    &&& a.len() == b.len()
    &&& forall|i: int| 0 <= i < a.len() ==> ascii_lower(#[trigger] a[i]) == ascii_lower(b[i])
}

fn ascii_lower_char(c: char) -> (r: char)
    ensures
        r == ascii_lower(c),
{
    if 'A' <= c && c <= 'Z' {
        let u = (c as u32) + 32;
        assert(0x61 <= u <= 0x7A);
        char_from_ascii(u)
    } else {
        c
    }
}

fn char_from_ascii(u: u32) -> (c: char)
    requires
        u < 128,
    ensures
        c == u as char,
{
    (u as u8) as char
}

/// Whether `chars[lo..hi]` equals `word` once ASCII letters are compared without case.
pub fn range_equals_ignore_ascii_case(chars: &Vec<char>, lo: usize, hi: usize, word: &Vec<char>) -> (b:
    bool)
    requires
        lo <= hi <= chars.len(),
    ensures
        b == eq_ignore_ascii_case(chars@.subrange(lo as int, hi as int), word@),
{
    let ghost s = chars@.subrange(lo as int, hi as int);
    if hi - lo != word.len() {
        return false;
    }
    let mut i: usize = 0;
    while i < word.len()
        invariant
            lo <= hi <= chars.len(),
            hi - lo == word.len(),
            s == chars@.subrange(lo as int, hi as int),
            i <= word.len(),
            forall|k: int| 0 <= k < i ==> ascii_lower(#[trigger] s[k]) == ascii_lower(word@[k]),
        decreases word.len() - i,
    {
        assert(s[i as int] == chars@[lo + i]);
        if ascii_lower_char(chars[lo + i]) != ascii_lower_char(word[i]) {
            return false;
        }
        i += 1;
    }
    true
}

} // verus!
