//! Character-level helpers on which the parsers and the language
//! detection are built.

use vstd::prelude::*;

verus! {

/// The characters of a string slice, in order.
#[verifier::external_body]
pub(crate) fn chars_of(s: &str) -> (res: Vec<char>)
    ensures
        res@ == s@,
{
    s.chars().collect()
}

/// What `str::to_lowercase` returns for a string: each character mapped
/// to its full Unicode lowercase form.
pub uninterp spec fn unicode_lowercase(s: Seq<char>) -> Seq<char>;

/// A character with ASCII capitals turned into small letters.
pub open spec fn ascii_lower(c: char) -> char {
    if 'A' <= c && c <= 'Z' {
        ((c as u32) + 32) as char
    } else {
        c
    }
}

/// Every character is ASCII.
pub open spec fn is_ascii_text(s: Seq<char>) -> bool {
    forall|i: int| 0 <= i < s.len() ==> #[trigger] s[i] < '\u{80}'
}

/// Calls `str::to_lowercase`. Its result is a deterministic function of the
/// argument (Unicode's lowercase mapping); it is named, not written out.
/// Of ASCII text, Unicode's mapping turns `A`-`Z` into `a`-`z` and keeps
/// every other character, which is stated.
#[verifier::external_body]
pub(crate) fn to_lowercase(s: &str) -> (res: String)
    ensures
        res@ == unicode_lowercase(s@),
        is_ascii_text(s@) ==> res@ == s@.map_values(|c: char| ascii_lower(c)),
{
    s.to_lowercase()
}

/// `s` begins with `prefix`.
pub open spec fn seq_starts_with(s: Seq<char>, prefix: Seq<char>) -> bool {
    prefix.len() <= s.len() && s.subrange(0, prefix.len() as int) == prefix
}

/// Every occurrence of `from` replaced by `to`.
pub open spec fn replace_char(s: Seq<char>, from: char, to: char) -> Seq<char> {
    s.map_values(|c: char| if c == from { to } else { c })
}

/// Executable prefix test on character sequences.
pub fn starts_with_chars(s: &Vec<char>, prefix: &str) -> (res: bool)
    ensures
        res == seq_starts_with(s@, prefix@),
{
    let p = chars_of(prefix);
    if p.len() > s.len() {
        return false;
    }
    let mut i: usize = 0;
    while i < p.len()
        invariant
            p@ == prefix@,
            p.len() <= s.len(),
            i <= p.len(),
            forall|j: int| 0 <= j < i ==> s@[j] == p@[j],
        decreases p.len() - i,
    {
        if s[i] != p[i] {
            assert(s@.subrange(0, p@.len() as int)[i as int] != p@[i as int]);
            return false;
        }
        i = i + 1;
    }
    assert(s@.subrange(0, p@.len() as int) =~= p@);
    true
}

/// Executable equality of a character sequence with a string.
pub fn eq_chars(s: &Vec<char>, other: &str) -> (res: bool)
    ensures
        res == (s@ == other@),
{
    let o = chars_of(other);
    if o.len() != s.len() {
        return false;
    }
    let mut i: usize = 0;
    while i < o.len()
        invariant
            o@ == other@,
            o.len() == s.len(),
            i <= o.len(),
            forall|j: int| 0 <= j < i ==> s@[j] == o@[j],
        decreases o.len() - i,
    {
        if s[i] != o[i] {
            return false;
        }
        i = i + 1;
    }
    assert(s@ =~= o@);
    true
}

/// Replaces every `from` by `to` in a character vector.
pub fn replace_char_vec(s: &Vec<char>, from: char, to: char) -> (res: Vec<char>)
    ensures
        res@ == replace_char(s@, from, to),
{
    let mut out: Vec<char> = Vec::new();
    let mut i: usize = 0;
    while i < s.len()
        invariant
            i <= s.len(),
            out@ == replace_char(s@.subrange(0, i as int), from, to),
        decreases s.len() - i,
    {
        let c = s[i];
        if c == from {
            out.push(to);
        } else {
            out.push(c);
        }
        proof {
            assert(s@.subrange(0, i + 1) =~= s@.subrange(0, i as int).push(c));
        }
        assert(out@ =~= replace_char(s@.subrange(0, i + 1), from, to));
        i = i + 1;
    }
    assert(s@.subrange(0, s.len() as int) =~= s@);
    out
}

} // verus!

verus! {

/// The Unicode `White_Space` characters, which `char::is_whitespace`,
/// `str::trim` and `str::split_whitespace` treat as blanks.
pub open spec fn is_white_space(c: char) -> bool {
    ('\u{9}' <= c && c <= '\u{d}') || c == ' ' || c == '\u{85}' || c == '\u{a0}' || c
        == '\u{1680}' || ('\u{2000}' <= c && c <= '\u{200a}') || c == '\u{2028}' || c
        == '\u{2029}' || c == '\u{202f}' || c == '\u{205f}' || c == '\u{3000}'
}

/// Executable test for Unicode white space.
pub fn is_white_space_char(c: char) -> (res: bool)
    ensures
        res == is_white_space(c),
{
    ('\u{9}' <= c && c <= '\u{d}') || c == ' ' || c == '\u{85}' || c == '\u{a0}' || c
        == '\u{1680}' || ('\u{2000}' <= c && c <= '\u{200a}') || c == '\u{2028}' || c
        == '\u{2029}' || c == '\u{202f}' || c == '\u{205f}' || c == '\u{3000}'
}

/// Scanning the first `n` characters of `s` for words: the words already
/// closed, and the word being read.
pub open spec fn word_scan(s: Seq<char>, n: int) -> (Seq<Seq<char>>, Seq<char>)
    decreases n,
{
    if n <= 0 {
        (Seq::empty(), Seq::empty())
    } else {
        let (done, cur) = word_scan(s, n - 1);
        let c = s[n - 1];
        if is_white_space(c) {
            if cur.len() > 0 {
                (done.push(cur), Seq::empty())
            } else {
                (done, Seq::empty())
            }
        } else {
            (done, cur.push(c))
        }
    }
}

/// The maximal runs of non-blank characters of `s`, in order: what
/// `str::split_whitespace` yields.
pub open spec fn words(s: Seq<char>) -> Seq<Seq<char>> {
    let (done, cur) = word_scan(s, s.len() as int);
    if cur.len() > 0 {
        done.push(cur)
    } else {
        done
    }
}

/// The views of a vector of character vectors.
pub open spec fn char_rows(v: Seq<Vec<char>>) -> Seq<Seq<char>> {
    v.map_values(|r: Vec<char>| r@)
}

/// Splits a line into its words.
pub fn split_words(s: &Vec<char>) -> (res: Vec<Vec<char>>)
    ensures
        char_rows(res@) == words(s@),
{
    let mut done: Vec<Vec<char>> = Vec::new();
    let mut cur: Vec<char> = Vec::new();
    let mut i: usize = 0;
    while i < s.len()
        invariant
            i <= s.len(),
            (char_rows(done@), cur@) == word_scan(s@, i as int),
        decreases s.len() - i,
    {
        let c = s[i];
        let ghost old_done = done@;
        if is_white_space_char(c) {
            if cur.len() > 0 {
                let w = cur;
                done.push(w);
                cur = Vec::new();
                assert(char_rows(done@) =~= char_rows(old_done).push(w@));
            } else {
                cur = Vec::new();
            }
        } else {
            cur.push(c);
        }
        i = i + 1;
    }
    if cur.len() > 0 {
        let ghost old_done = done@;
        let w = cur;
        done.push(w);
        assert(char_rows(done@) =~= char_rows(old_done).push(w@));
    }
    done
}

/// `s` with the leading characters that satisfy `p` removed.
pub open spec fn trim_start_by(s: Seq<char>, p: spec_fn(char) -> bool) -> Seq<char>
    decreases s.len(),
{
    if s.len() > 0 && p(s[0]) {
        trim_start_by(s.drop_first(), p)
    } else {
        s
    }
}

/// `s` with the trailing characters that satisfy `p` removed.
pub open spec fn trim_end_by(s: Seq<char>, p: spec_fn(char) -> bool) -> Seq<char>
    decreases s.len(),
{
    if s.len() > 0 && p(s.last()) {
        trim_end_by(s.drop_last(), p)
    } else {
        s
    }
}

/// What `str::trim` returns: `s` without leading and trailing white space.
pub open spec fn trim(s: Seq<char>) -> Seq<char> {
    trim_end_by(trim_start_by(s, white_pred()), white_pred())
}

/// The predicate "is white space".
pub open spec fn white_pred() -> spec_fn(char) -> bool {
    |c: char| is_white_space(c)
}

/// The predicate "is `ch`".
pub open spec fn char_pred(ch: char) -> spec_fn(char) -> bool {
    |c: char| c == ch
}

/// What `str::trim_matches(ch)` returns: `s` without leading and trailing `ch`.
pub open spec fn trim_char(s: Seq<char>, ch: char) -> Seq<char> {
    trim_end_by(trim_start_by(s, char_pred(ch)), char_pred(ch))
}

proof fn lemma_trim_start_skip(s: Seq<char>, p: spec_fn(char) -> bool, i: int)
    requires
        0 <= i <= s.len(),
        forall|j: int| 0 <= j < i ==> p(#[trigger] s[j]),
    ensures
        trim_start_by(s, p) == trim_start_by(s.subrange(i, s.len() as int), p),
    decreases i,
{
    if i > 0 {
        assert(s.drop_first().subrange(i - 1, s.drop_first().len() as int) =~= s.subrange(
            i,
            s.len() as int,
        ));
        lemma_trim_start_skip(s.drop_first(), p, i - 1);
    } else {
        assert(s.subrange(0, s.len() as int) =~= s);
    }
}

proof fn lemma_trim_end_skip(s: Seq<char>, p: spec_fn(char) -> bool, k: int)
    requires
        0 <= k <= s.len(),
        forall|j: int| k <= j < s.len() ==> p(#[trigger] s[j]),
    ensures
        trim_end_by(s, p) == trim_end_by(s.subrange(0, k), p),
    decreases s.len() - k,
{
    if k < s.len() {
        assert(s.drop_last().subrange(0, k) =~= s.subrange(0, k));
        lemma_trim_end_skip(s.drop_last(), p, k);
    } else {
        assert(s.subrange(0, k) =~= s);
    }
}

fn trimmed_char(c: char, ws: bool, ch: char) -> (res: bool)
    ensures
        res == (if ws { is_white_space(c) } else { c == ch }),
{
    if ws {
        is_white_space_char(c)
    } else {
        c == ch
    }
}

/// Removes leading and trailing characters by a predicate given as a flag:
/// white space when `ws`, else the character `ch`.
fn trim_vec(s: &Vec<char>, ws: bool, ch: char) -> (res: Vec<char>)
    ensures
        ws ==> res@ == trim(s@),
        !ws ==> res@ == trim_char(s@, ch),
{
    let ghost p: spec_fn(char) -> bool = if ws {
        white_pred()
    } else {
        char_pred(ch)
    };
    assert(forall|c: char| #[trigger] p(c) == (if ws { is_white_space(c) } else { c == ch }));
    let mut a: usize = 0;
    while a < s.len() && trimmed_char(s[a], ws, ch)
        invariant
            a <= s.len(),
            forall|c: char| #[trigger] p(c) == (if ws { is_white_space(c) } else { c == ch }),
            forall|j: int| 0 <= j < a ==> p(#[trigger] s@[j]),
        decreases s.len() - a,
    {
        a = a + 1;
    }
    proof {
        lemma_trim_start_skip(s@, p, a as int);
    }
    let ghost rest = s@.subrange(a as int, s.len() as int);
    assert(a < s.len() ==> !p(rest[0]));
    assert(trim_start_by(rest, p) == rest);
    let mut b: usize = s.len();
    while b > a && trimmed_char(s[b - 1], ws, ch)
        invariant
            a <= b <= s.len(),
            forall|c: char| #[trigger] p(c) == (if ws { is_white_space(c) } else { c == ch }),
            forall|j: int| b <= j < s.len() ==> p(#[trigger] s@[j]),
        decreases b,
    {
        b = b - 1;
    }
    proof {
        assert forall|j: int| b - a <= j < rest.len() implies p(#[trigger] rest[j]) by {
            assert(rest[j] == s@[a + j]);
        }
        lemma_trim_end_skip(rest, p, b - a);
        assert(rest.subrange(0, b - a) =~= s@.subrange(a as int, b as int));
        let r2 = s@.subrange(a as int, b as int);
        if r2.len() > 0 {
            assert(r2.last() == s@[b - 1]);
        }
        assert(trim_end_by(r2, p) == r2);
    }
    let mut out: Vec<char> = Vec::new();
    let mut i: usize = a;
    while i < b
        invariant
            a <= i <= b <= s.len(),
            out@ == s@.subrange(a as int, i as int),
        decreases b - i,
    {
        out.push(s[i]);
        assert(out@ =~= s@.subrange(a as int, i + 1));
        i = i + 1;
    }
    out
}

/// `str::trim` on a character vector.
pub fn trim_white(s: &Vec<char>) -> (res: Vec<char>)
    ensures
        res@ == trim(s@),
{
    trim_vec(s, true, ' ')
}

/// `str::trim_matches(ch)` on a character vector.
pub fn trim_matching(s: &Vec<char>, ch: char) -> (res: Vec<char>)
    ensures
        res@ == trim_char(s@, ch),
{
    trim_vec(s, false, ch)
}

} // verus!

verus! {

/// Scanning the first `n` bytes for lines: the lines already closed (each
/// with its final newline), and the line being read.
pub open spec fn line_scan(data: Seq<u8>, n: int) -> (Seq<Seq<u8>>, Seq<u8>)
    decreases n,
{
    if n <= 0 {
        (Seq::empty(), Seq::empty())
    } else {
        let (done, cur) = line_scan(data, n - 1);
        let cur2 = cur.push(data[n - 1]);
        if data[n - 1] == 10u8 {
            (done.push(cur2), Seq::empty())
        } else {
            (done, cur2)
        }
    }
}

/// The lines that `BufRead::read_line` returns one after another: each up
/// to and including its newline, the last one possibly without.
pub open spec fn byte_lines(data: Seq<u8>) -> Seq<Seq<u8>> {
    let (done, cur) = line_scan(data, data.len() as int);
    if cur.len() > 0 {
        done.push(cur)
    } else {
        done
    }
}

/// The views of a vector of byte vectors.
pub open spec fn byte_rows(v: Seq<Vec<u8>>) -> Seq<Seq<u8>> {
    v.map_values(|r: Vec<u8>| r@)
}

/// Splits data into lines as `read_line` does.
pub fn split_lines(data: &[u8]) -> (res: Vec<Vec<u8>>)
    ensures
        byte_rows(res@) == byte_lines(data@),
{
    let mut done: Vec<Vec<u8>> = Vec::new();
    let mut cur: Vec<u8> = Vec::new();
    let mut i: usize = 0;
    while i < data.len()
        invariant
            i <= data@.len(),
            (byte_rows(done@), cur@) == line_scan(data@, i as int),
        decreases data.len() - i,
    {
        let b = data[i];
        cur.push(b);
        if b == 10u8 {
            let ghost old_done = done@;
            let w = cur;
            done.push(w);
            cur = Vec::new();
            assert(byte_rows(done@) =~= byte_rows(old_done).push(w@));
        }
        i = i + 1;
    }
    if cur.len() > 0 {
        let ghost old_done = done@;
        let w = cur;
        done.push(w);
        assert(byte_rows(done@) =~= byte_rows(old_done).push(w@));
    }
    done
}

/// Calls `std::str::from_utf8` and takes the characters of the result:
/// `None` exactly when the bytes are not valid UTF-8, as its documentation
/// says.
#[verifier::external_body]
pub(crate) fn decode_utf8_chars(bytes: &[u8]) -> (res: Option<Vec<char>>)
    ensures
        res is Some <==> vstd::utf8::valid_utf8(bytes@),
        res matches Some(c) ==> c@ == vstd::utf8::decode_utf8(bytes@),
{
    std::str::from_utf8(bytes).ok().map(|s| s.chars().collect())
}

/// A copy of a character vector.
pub fn copy_chars(v: &Vec<char>) -> (res: Vec<char>)
    ensures
        res@ == v@,
{
    let mut out: Vec<char> = Vec::new();
    let mut i: usize = 0;
    while i < v.len()
        invariant
            i <= v.len(),
            out@ == v@.subrange(0, i as int),
        decreases v.len() - i,
    {
        out.push(v[i]);
        assert(out@ =~= v@.subrange(0, i + 1));
        i = i + 1;
    }
    assert(out@ =~= v@);
    out
}

} // verus!

verus! {

proof fn lemma_word_scan_nonblank(s: Seq<char>, n: int)
    requires
        0 <= n <= s.len(),
    ensures
        (exists|j: int| 0 <= j < n && !is_white_space(s[j])) ==> (word_scan(s, n).0.len() > 0
            || word_scan(s, n).1.len() > 0),
    decreases n,
{
    if n > 0 {
        lemma_word_scan_nonblank(s, n - 1);
        if (exists|j: int| 0 <= j < n && !is_white_space(s[j])) {
            let j = choose|j: int| 0 <= j < n && !is_white_space(s[j]);
            if j < n - 1 {
                assert(exists|j: int| 0 <= j < n - 1 && !is_white_space(s[j]));
            }
        }
    }
}

/// A trimmed text that is not empty has a first word, which begins with
/// its first character.
pub proof fn lemma_words_nonempty(t: Seq<char>)
    requires
        t.len() > 0,
        !is_white_space(t[0]),
    ensures
        words(t).len() > 0,
        words(t)[0].len() > 0,
        words(t)[0][0] == t[0],
{
    lemma_first_word(t, t.len() as int);
}

proof fn lemma_trim_start_first(s: Seq<char>, p: spec_fn(char) -> bool)
    ensures
        trim_start_by(s, p).len() > 0 ==> !p(trim_start_by(s, p)[0]),
    decreases s.len(),
{
    if s.len() > 0 && p(s[0]) {
        lemma_trim_start_first(s.drop_first(), p);
    }
}

proof fn lemma_trim_end_prefix(s: Seq<char>, p: spec_fn(char) -> bool)
    ensures
        trim_end_by(s, p).len() <= s.len(),
        trim_end_by(s, p) == s.subrange(0, trim_end_by(s, p).len() as int),
    decreases s.len(),
{
    if s.len() > 0 && p(s.last()) {
        lemma_trim_end_prefix(s.drop_last(), p);
        let k = trim_end_by(s, p).len() as int;
        assert(s.drop_last().subrange(0, k) =~= s.subrange(0, k));
    } else {
        assert(s.subrange(0, s.len() as int) =~= s);
    }
}

/// Trimmed text that is not empty begins with a character that is not
/// white space.
pub proof fn lemma_trim_first(s: Seq<char>)
    ensures
        trim(s).len() > 0 ==> !is_white_space(trim(s)[0]),
{
    let a = trim_start_by(s, white_pred());
    lemma_trim_start_first(s, white_pred());
    lemma_trim_end_prefix(a, white_pred());
    if trim(s).len() > 0 {
        assert(trim(s)[0] == a.subrange(0, trim(s).len() as int)[0]);
    }
}

proof fn lemma_first_word(t: Seq<char>, n: int)
    requires
        t.len() > 0,
        !is_white_space(t[0]),
        1 <= n <= t.len(),
    ensures
        word_scan(t, n).0.len() > 0 ==> word_scan(t, n).0[0].len() > 0 && word_scan(t, n).0[0][0]
            == t[0],
        word_scan(t, n).0.len() == 0 ==> word_scan(t, n).1.len() > 0 && word_scan(t, n).1[0]
            == t[0],
    decreases n,
{
    if n > 1 {
        lemma_first_word(t, n - 1);
        let (d0, c0) = word_scan(t, n - 1);
        let c = t[n - 1];
        if is_white_space(c) {
            if c0.len() > 0 {
                assert(d0.push(c0)[0] == if d0.len() > 0 { d0[0] } else { c0 });
            }
        } else {
            if c0.len() > 0 {
                assert(c0.push(c)[0] == c0[0]);
            }
        }
    } else {
        assert(word_scan(t, 0) == (Seq::<Seq<char>>::empty(), Seq::<char>::empty()));
        assert(word_scan(t, 1).1 == Seq::<char>::empty().push(t[0]));
    }
}

} // verus!

verus! {

/// `pat` occurs in `s` at index `j`.
pub open spec fn occurs_at(s: Seq<char>, pat: Seq<char>, j: int) -> bool {
    0 <= j && j + pat.len() <= s.len() && s.subrange(j, j + pat.len()) == pat
}

/// The first index, from `j` on, at which `pat` occurs in `s`.
pub open spec fn find_from(s: Seq<char>, pat: Seq<char>, j: int) -> Option<int>
    decreases s.len() + 1 - j,
{
    if j < 0 || j + pat.len() > s.len() {
        None
    } else if occurs_at(s, pat, j) {
        Some(j)
    } else {
        find_from(s, pat, j + 1)
    }
}

/// What `str::find` returns: the first occurrence of `pat` in `s`.
pub open spec fn find_first(s: Seq<char>, pat: Seq<char>) -> Option<int> {
    find_from(s, pat, 0)
}

/// `s` ends with `suffix`.
pub open spec fn seq_ends_with(s: Seq<char>, suffix: Seq<char>) -> bool {
    suffix.len() <= s.len() && s.subrange(s.len() - suffix.len(), s.len() as int) == suffix
}

fn matches_at(s: &Vec<char>, p: &Vec<char>, j: usize) -> (res: bool)
    requires
        j + p.len() <= s.len(),
    ensures
        res == occurs_at(s@, p@, j as int),
{
    let mut i: usize = 0;
    while i < p.len()
        invariant
            j + p.len() <= s.len(),
            i <= p.len(),
            forall|k: int| 0 <= k < i ==> s@[j + k] == p@[k],
        decreases p.len() - i,
    {
        if s[j + i] != p[i] {
            assert(s@.subrange(j as int, j + p.len())[i as int] != p@[i as int]);
            return false;
        }
        i = i + 1;
    }
    assert(s@.subrange(j as int, j + p.len()) =~= p@);
    true
}

/// The first occurrence of `pat` in `s` (`str::find`).
pub fn find_chars(s: &Vec<char>, pat: &str) -> (res: Option<usize>)
    ensures
        match find_first(s@, pat@) {
            Some(j) => res == Some(j as usize),
            None => res is None,
        },
        res matches Some(j) ==> j + pat@.len() <= s@.len() && find_first(s@, pat@) == Some(j as int),
        res is None ==> find_first(s@, pat@) is None,
{
    let p = chars_of(pat);
    proof {
        lemma_find_first_bounds(s@, pat@);
    }
    if p.len() > s.len() {
        return None;
    }
    if p.len() == 0 {
        assert(s@.subrange(0, 0) =~= p@);
        return Some(0);
    }
    let last = s.len() - p.len();
    let mut j: usize = 0;
    while j <= last
        invariant
            p@ == pat@,
            p.len() <= s.len(),
            p.len() > 0,
            last == s.len() - p.len(),
            j <= last + 1,
            find_first(s@, p@) == find_from(s@, p@, j as int),
        decreases last + 1 - j,
    {
        if matches_at(s, &p, j) {
            return Some(j);
        }
        j = j + 1;
    }
    None
}

/// Whether `s` ends with `suffix`.
pub fn ends_with_chars(s: &Vec<char>, suffix: &str) -> (res: bool)
    ensures
        res == seq_ends_with(s@, suffix@),
{
    let p = chars_of(suffix);
    if p.len() > s.len() {
        return false;
    }
    let r = matches_at(s, &p, s.len() - p.len());
    r
}

} // verus!

verus! {

/// Where `find_first` finds the pattern, it occurs there.
pub proof fn lemma_find_first_bounds(s: Seq<char>, pat: Seq<char>)
    ensures
        find_first(s, pat) matches Some(j) ==> 0 <= j && j + pat.len() <= s.len(),
{
    lemma_find_from_bounds(s, pat, 0);
}

proof fn lemma_find_from_bounds(s: Seq<char>, pat: Seq<char>, j: int)
    ensures
        find_from(s, pat, j) matches Some(k) ==> j <= k && 0 <= k && k + pat.len() <= s.len(),
    decreases s.len() + 1 - j,
{
    if !(j < 0 || j + pat.len() > s.len()) && !occurs_at(s, pat, j) {
        lemma_find_from_bounds(s, pat, j + 1);
    }
}

} // verus!
