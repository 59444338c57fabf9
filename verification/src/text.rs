//! Character-level text helpers: whitespace trimming, character search,
//! prefix tests, whitespace tokenization and line splitting, each with a
//! specification over `Seq<char>`.

use vstd::prelude::*;
use vstd::string::StrSliceExecFns;
use vstd::string::StringExecFns;

verus! {

/// The whitespace characters the scanner recognizes (the ASCII ones).
pub open spec fn is_space(c: char) -> bool {
    c == ' ' || c == '\t' || c == '\n' || c == '\r' || c == '\u{000b}' || c == '\u{000c}'
}

pub fn is_space_char(c: char) -> (r: bool)
    ensures
        r == is_space(c),
{
    c == ' ' || c == '\t' || c == '\n' || c == '\r' || c == '\u{000b}' || c == '\u{000c}'
}

/// Index of the first non-space character at or after `i`.
pub open spec fn skip_spaces_at(s: Seq<char>, i: int) -> int
    decreases s.len() - i,
{
    if 0 <= i < s.len() && is_space(s[i]) {
        skip_spaces_at(s, i + 1)
    } else {
        i
    }
}

pub proof fn lemma_skip_spaces_at(s: Seq<char>, i: int)
    requires
        0 <= i <= s.len(),
    ensures
        i <= skip_spaces_at(s, i) <= s.len(),
        forall|k: int| i <= k < skip_spaces_at(s, i) ==> is_space(s[k]),
        skip_spaces_at(s, i) < s.len() ==> !is_space(s[skip_spaces_at(s, i)]),
    decreases s.len() - i,
{
    if i < s.len() && is_space(s[i]) {
        lemma_skip_spaces_at(s, i + 1);
    }
}

/// Index just after the last space of the space run ending at `j`.
pub open spec fn trim_end_at(s: Seq<char>, j: int) -> int
    decreases j,
{
    if 0 < j <= s.len() && is_space(s[j - 1]) {
        trim_end_at(s, j - 1)
    } else {
        j
    }
}

pub proof fn lemma_trim_end_at(s: Seq<char>, j: int)
    requires
        0 <= j <= s.len(),
    ensures
        0 <= trim_end_at(s, j) <= j,
        forall|k: int| trim_end_at(s, j) <= k < j ==> is_space(s[k]),
        trim_end_at(s, j) > 0 ==> !is_space(s[trim_end_at(s, j) - 1]),
    decreases j,
{
    if 0 < j && is_space(s[j - 1]) {
        lemma_trim_end_at(s, j - 1);
    }
}

/// The sequence with leading whitespace removed.
pub open spec fn trim_start_spec(s: Seq<char>) -> Seq<char> {
    s.subrange(skip_spaces_at(s, 0), s.len() as int)
}

/// The sequence with leading and trailing whitespace removed.
pub open spec fn trim_spec(s: Seq<char>) -> Seq<char> {
    let b = skip_spaces_at(s, 0);
    let e = trim_end_at(s, s.len() as int);
    if b <= e {
        s.subrange(b, e)
    } else {
        Seq::empty()
    }
}

/// Index of the first non-space character of `s`.
pub fn str_trim_start_idx(s: &str) -> (b: usize)
    ensures
        b as int == skip_spaces_at(s@, 0),
        b <= s@.len(),
{
    let n = s.unicode_len();
    let mut b: usize = 0;
    while b < n && is_space_char(s.get_char(b))
        invariant
            n == s@.len(),
            b <= n,
            skip_spaces_at(s@, 0) == skip_spaces_at(s@, b as int),
        decreases n - b,
    {
        b += 1;
    }
    b
}

/// The slice of `s` with leading whitespace removed.
pub fn str_trim_start<'a>(s: &'a str) -> (r: &'a str)
    ensures
        r@ == trim_start_spec(s@),
{
    let n = s.unicode_len();
    let b = str_trim_start_idx(s);
    s.substring_char(b, n)
}

/// The slice of `s` with leading and trailing whitespace removed.
pub fn str_trim<'a>(s: &'a str) -> (r: &'a str)
    ensures
        r@ == trim_spec(s@),
{
    let n = s.unicode_len();
    let b = str_trim_start_idx(s);
    let mut e: usize = n;
    while e > b && is_space_char(s.get_char(e - 1))
        invariant
            n == s@.len(),
            b <= e <= n,
            b as int == skip_spaces_at(s@, 0),
            trim_end_at(s@, n as int) == trim_end_at(s@, e as int),
        decreases e,
    {
        e -= 1;
    }
    if e > b {
        // the loop stopped on a non-space character, so the trimmed end is e
        assert(trim_end_at(s@, e as int) == e as int);
        s.substring_char(b, e)
    } else {
        // e == b: everything from b on was whitespace, so the trim is empty
        proof {
            lemma_trim_end_at(s@, b as int);
            assert(trim_spec(s@) =~= Seq::<char>::empty());
            assert(s@.subrange(b as int, b as int) =~= Seq::<char>::empty());
        }
        s.substring_char(b, b)
    }
}

/// First occurrence of `c` in `s` at or after `i`.
pub open spec fn find_char_from(s: Seq<char>, i: int, c: char) -> Option<int>
    decreases s.len() - i,
{
    if !(0 <= i < s.len()) {
        None
    } else if s[i] == c {
        Some(i)
    } else {
        find_char_from(s, i + 1, c)
    }
}

pub proof fn lemma_find_char_from(s: Seq<char>, i: int, c: char)
    requires
        0 <= i,
    ensures
        match find_char_from(s, i, c) {
            Some(k) => i <= k < s.len() && s[k] == c && forall|j: int| i <= j < k ==> s[j] != c,
            None => forall|j: int| i <= j < s.len() ==> s[j] != c,
        },
    decreases s.len() - i,
{
    if 0 <= i < s.len() && s[i] != c {
        lemma_find_char_from(s, i + 1, c);
    }
}

/// Exec search for the first occurrence of `c` at or after `i`.
pub fn str_find_char_from(s: &str, i: usize, c: char) -> (r: Option<usize>)
    requires
        i <= s@.len(),
    ensures
        match r {
            Some(k) => i <= k && Some(k as int) == find_char_from(s@, i as int, c) && k < s@.len(),
            None => find_char_from(s@, i as int, c) is None,
        },
{
    let n = s.unicode_len();
    let mut k: usize = i;
    while k < n
        invariant
            n == s@.len(),
            i <= k <= n,
            find_char_from(s@, i as int, c) == find_char_from(s@, k as int, c),
        decreases n - k,
    {
        if s.get_char(k) == c {
            return Some(k);
        }
        k += 1;
    }
    None
}

pub fn str_find_char(s: &str, c: char) -> (r: Option<usize>)
    ensures
        match r {
            Some(k) => Some(k as int) == find_char_from(s@, 0, c) && k < s@.len(),
            None => find_char_from(s@, 0, c) is None,
        },
{
    str_find_char_from(s, 0, c)
}

/// First whitespace character in `s` at or after `i`.
pub open spec fn find_space_from(s: Seq<char>, i: int) -> Option<int>
    decreases s.len() - i,
{
    if !(0 <= i < s.len()) {
        None
    } else if is_space(s[i]) {
        Some(i)
    } else {
        find_space_from(s, i + 1)
    }
}

/// Exec search for the first whitespace character.
pub fn str_find_space(s: &str) -> (r: Option<usize>)
    ensures
        match r {
            Some(k) => Some(k as int) == find_space_from(s@, 0) && k < s@.len(),
            None => find_space_from(s@, 0) is None,
        },
{
    let n = s.unicode_len();
    let mut k: usize = 0;
    while k < n
        invariant
            n == s@.len(),
            k <= n,
            find_space_from(s@, 0) == find_space_from(s@, k as int),
        decreases n - k,
    {
        if is_space_char(s.get_char(k)) {
            return Some(k);
        }
        k += 1;
    }
    None
}

/// Whether two string slices hold the same characters.
pub fn str_eq(a: &str, b: &str) -> (r: bool)
    ensures
        r == (a@ == b@),
{
    let an = a.unicode_len();
    let bn = b.unicode_len();
    if an != bn {
        return false;
    }
    let mut i: usize = 0;
    while i < an
        invariant
            an == a@.len(),
            an == b@.len(),
            i <= an,
            forall|k: int| 0 <= k < i ==> a@[k] == b@[k],
        decreases an - i,
    {
        if a.get_char(i) != b.get_char(i) {
            return false;
        }
        i += 1;
    }
    proof {
        assert(a@ =~= b@);
    }
    true
}

/// Trimming changes nothing when neither end is whitespace.
pub proof fn lemma_trim_unpadded(s: Seq<char>)
    requires
        s.len() > 0,
        !is_space(s[0]),
        !is_space(s[s.len() - 1]),
    ensures
        trim_spec(s) == s,
{
    assert(skip_spaces_at(s, 0) == 0);
    assert(trim_end_at(s, s.len() as int) == s.len() as int);
    assert(s.subrange(0, s.len() as int) =~= s);
}

/// `p` is a prefix of `s`.
pub open spec fn has_prefix(s: Seq<char>, p: Seq<char>) -> bool {
    p.len() <= s.len() && forall|k: int| 0 <= k < p.len() ==> s[k] == p[k]
}

/// `p` occurs in `s` starting at position `i`.
pub open spec fn has_seq_at(s: Seq<char>, i: int, p: Seq<char>) -> bool {
    0 <= i && i + p.len() <= s.len() && forall|k: int| 0 <= k < p.len() ==> s[i + k] == p[k]
}

pub fn str_has_prefix(s: &str, p: &str) -> (r: bool)
    ensures
        r == has_prefix(s@, p@),
{
    let sn = s.unicode_len();
    let pn = p.unicode_len();
    if pn > sn {
        return false;
    }
    let mut i: usize = 0;
    while i < pn
        invariant
            sn == s@.len(),
            pn == p@.len(),
            pn <= sn,
            i <= pn,
            forall|k: int| 0 <= k < i ==> s@[k] == p@[k],
        decreases pn - i,
    {
        if s.get_char(i) != p.get_char(i) {
            return false;
        }
        i += 1;
    }
    true
}

pub fn str_has_at(s: &str, i: usize, p: &str) -> (r: bool)
    requires
        i <= s@.len(),
    ensures
        r == has_seq_at(s@, i as int, p@),
{
    let sn = s.unicode_len();
    let pn = p.unicode_len();
    if pn > sn - i {
        return false;
    }
    let mut k: usize = 0;
    while k < pn
        invariant
            sn == s@.len(),
            pn == p@.len(),
            i + pn <= sn,
            k <= pn,
            forall|j: int| 0 <= j < k ==> s@[i + j] == p@[j],
        decreases pn - k,
    {
        if s.get_char(i + k) != p.get_char(k) {
            return false;
        }
        k += 1;
    }
    true
}

/// `s` with every copy of the prefix `p` removed from the front.
pub open spec fn strip_all(s: Seq<char>, p: Seq<char>) -> Seq<char>
    decreases s.len(),
{
    if p.len() > 0 && has_prefix(s, p) {
        strip_all(s.subrange(p.len() as int, s.len() as int), p)
    } else {
        s
    }
}

pub fn strip_all_prefix<'a>(s: &'a str, p: &str) -> (r: &'a str)
    requires
        p@.len() > 0,
    ensures
        r@ == strip_all(s@, p@),
{
    let pn = p.unicode_len();
    let mut cur: &str = s;
    loop
        invariant
            pn == p@.len(),
            pn > 0,
            strip_all(s@, p@) == strip_all(cur@, p@),
        decreases cur@.len(),
    {
        if str_has_prefix(cur, p) {
            let cn = cur.unicode_len();
            cur = cur.substring_char(pn, cn);
        } else {
            return cur;
        }
    }
}

/// End of the run of non-space characters starting at `i`.
pub open spec fn non_space_end(s: Seq<char>, i: int) -> int
    decreases s.len() - i,
{
    if 0 <= i < s.len() && !is_space(s[i]) {
        non_space_end(s, i + 1)
    } else {
        i
    }
}

pub proof fn lemma_non_space_end(s: Seq<char>, i: int)
    requires
        0 <= i <= s.len(),
    ensures
        i <= non_space_end(s, i) <= s.len(),
    decreases s.len() - i,
{
    if i < s.len() && !is_space(s[i]) {
        lemma_non_space_end(s, i + 1);
    }
}

/// The whitespace-separated tokens of `s` from position `i` on.
pub open spec fn tokens_from(s: Seq<char>, i: int) -> Seq<Seq<char>>
    decreases s.len() - i,
{
    if !(0 <= i < s.len()) {
        Seq::empty()
    } else if is_space(s[i]) {
        tokens_from(s, i + 1)
    } else {
        proof {
            lemma_non_space_end(s, i + 1);
        }
        seq![s.subrange(i, non_space_end(s, i + 1))] + tokens_from(s, non_space_end(s, i + 1))
    }
}

/// The tokens joined by single spaces.
pub open spec fn join_spaced(ts: Seq<Seq<char>>) -> Seq<char>
    decreases ts.len(),
{
    if ts.len() == 0 {
        Seq::empty()
    } else if ts.len() == 1 {
        ts[0]
    } else {
        ts[0] + " "@ + join_spaced(ts.drop_first())
    }
}

/// Splits `s` into whitespace-separated tokens.
pub fn split_whitespace_vec(s: &str) -> (r: Vec<String>)
    ensures
        r.deep_view() == tokens_from(s@, 0),
{
    let n = s.unicode_len();
    let mut r: Vec<String> = Vec::new();
    let mut i: usize = 0;
    while i < n
        invariant
            n == s@.len(),
            i <= n,
            tokens_from(s@, 0) == r.deep_view() + tokens_from(s@, i as int),
        decreases n - i,
    {
        if is_space_char(s.get_char(i)) {
            i += 1;
        } else {
            let mut e: usize = i + 1;
            while e < n && !is_space_char(s.get_char(e))
                invariant
                    n == s@.len(),
                    i < e <= n,
                    non_space_end(s@, i as int + 1) == non_space_end(s@, e as int),
                decreases n - e,
            {
                e += 1;
            }
            assert(non_space_end(s@, i as int + 1) == e as int);
            let tok = s.substring_char(i, e).to_owned();
            let ghost old_dv = r.deep_view();
            r.push(tok);
            proof {
                assert(r.deep_view() =~= old_dv + seq![s@.subrange(i as int, e as int)]);
                assert(tokens_from(s@, i as int) == seq![s@.subrange(i as int, e as int)]
                    + tokens_from(s@, e as int));
                assert(tokens_from(s@, 0) == r.deep_view() + tokens_from(s@, e as int));
            }
            i = e;
        }
    }
    assert(tokens_from(s@, 0) =~= r.deep_view() + tokens_from(s@, n as int));
    assert(tokens_from(s@, 0) =~= r.deep_view());
    r
}

/// Joins `words[start..]` with single spaces.
pub fn join_from(words: &Vec<String>, start: usize) -> (r: String)
    requires
        start <= words@.len(),
    ensures
        r@ == join_spaced(words.deep_view().skip(start as int)),
    decreases words.len() - start,
{
    if start >= words.len() {
        assert(words.deep_view().skip(start as int) =~= Seq::<Seq<char>>::empty());
        String::new()
    } else if start == words.len() - 1 {
        assert(words.deep_view().skip(start as int) =~= seq![words@[start as int]@]);
        let w: &String = &words[start];
        w.clone()
    } else {
        let rest = join_from(words, start + 1);
        let mut r: String = words[start].clone();
        r.append(" ");
        r.append(rest.as_str());
        proof {
            let dv = words.deep_view().skip(start as int);
            assert(dv.drop_first() =~= words.deep_view().skip(start as int + 1));
            assert(dv[0] == words@[start as int]@);
            assert(dv.len() >= 2);
        }
        r
    }
}

/// Drops a final carriage return, as line splitting does.
pub open spec fn chomp_cr(l: Seq<char>) -> Seq<char> {
    if l.len() > 0 && l[l.len() - 1] == '\r' {
        l.drop_last()
    } else {
        l
    }
}

/// The lines of `s` from position `i` on: pieces separated by `'\n'`,
/// each with a final `'\r'` removed; a trailing newline ends the last line.
pub open spec fn split_lines_from(s: Seq<char>, i: int) -> Seq<Seq<char>>
    decreases s.len() - i,
{
    if !(0 <= i < s.len()) {
        Seq::empty()
    } else {
        match find_char_from(s, i, '\n') {
            Some(k) => {
                proof {
                    lemma_find_char_from(s, i, '\n');
                }
                seq![chomp_cr(s.subrange(i, k))] + split_lines_from(s, k + 1)
            },
            None => seq![s.subrange(i, s.len() as int)],
        }
    }
}

/// Splits a text into its lines.
pub fn split_lines(s: &str) -> (r: Vec<String>)
    ensures
        r.deep_view() == split_lines_from(s@, 0),
{
    let n = s.unicode_len();
    let mut r: Vec<String> = Vec::new();
    let mut i: usize = 0;
    while i < n
        invariant
            n == s@.len(),
            i <= n,
            split_lines_from(s@, 0) == r.deep_view() + split_lines_from(s@, i as int),
        decreases n - i,
    {
        let ghost old_dv = r.deep_view();
        match str_find_char_from(s, i, '\n') {
            Some(k) => {
                let mut e: usize = k;
                if e > i && s.get_char(e - 1) == '\r' {
                    e -= 1;
                }
                let line = s.substring_char(i, e).to_owned();
                r.push(line);
                proof {
                    assert(chomp_cr(s@.subrange(i as int, k as int)) =~= s@.subrange(
                        i as int,
                        e as int,
                    ));
                    assert(r.deep_view() =~= old_dv + seq![chomp_cr(
                        s@.subrange(i as int, k as int),
                    )]);
                }
                i = k + 1;
            },
            None => {
                let line = s.substring_char(i, n).to_owned();
                r.push(line);
                proof {
                    assert(r.deep_view() =~= old_dv + seq![s@.subrange(i as int, s@.len() as int)]);
                }
                i = n;
            },
        }
    }
    assert(split_lines_from(s@, n as int) =~= Seq::<Seq<char>>::empty());
    assert(r.deep_view() =~= split_lines_from(s@, 0));
    r
}

} // verus!
