//! The declaration locator: recognizes the four Lua declaration shapes
//! and extracts the declared name. Patterns are tried in a fixed priority
//! order — named, local, method-style, assignment-style — and, for each
//! pattern, at each position of the line from left to right; greedy
//! (maximal-munch) matching of identifier runs and dotted names.

use vstd::prelude::*;
use vstd::string::StrSliceExecFns;
use vstd::string::StringExecFns;

use crate::text::{has_seq_at, skip_spaces_at, str_has_at};

verus! {

/// A character that may start an identifier: a letter or an underscore.
pub open spec fn is_ident_start(c: char) -> bool {
    let u = c as u32;
    (97 <= u <= 122) || (65 <= u <= 90) || u == 95
}

/// A character that may continue an identifier: a letter, a digit or an
/// underscore.
pub open spec fn is_ident_char(c: char) -> bool {
    is_ident_start(c) || (48 <= c as u32 <= 57)
}

pub fn ident_start_char(c: char) -> (r: bool)
    ensures
        r == is_ident_start(c),
{
    let u = c as u32;
    (97 <= u && u <= 122) || (65 <= u && u <= 90) || u == 95
}

pub fn ident_char_char(c: char) -> (r: bool)
    ensures
        r == is_ident_char(c),
{
    let u = c as u32;
    ident_start_char(c) || (48 <= u && u <= 57)
}

/// End of the run of identifier characters starting at `i`.
pub open spec fn ident_run_end(s: Seq<char>, i: int) -> int
    decreases s.len() - i,
{
    if 0 <= i < s.len() && is_ident_char(s[i]) {
        ident_run_end(s, i + 1)
    } else {
        i
    }
}

pub proof fn lemma_ident_run_end(s: Seq<char>, i: int)
    requires
        0 <= i <= s.len(),
    ensures
        i <= ident_run_end(s, i) <= s.len(),
        forall|k: int| i <= k < ident_run_end(s, i) ==> is_ident_char(s[k]),
        ident_run_end(s, i) < s.len() ==> !is_ident_char(s[ident_run_end(s, i)]),
    decreases s.len() - i,
{
    if i < s.len() && is_ident_char(s[i]) {
        lemma_ident_run_end(s, i + 1);
    }
}

/// End of the dotted name starting at `i`: a greedy run of identifier
/// characters, extended across each `.` that is directly followed by an
/// identifier-start character.
pub open spec fn dotted_end(s: Seq<char>, i: int) -> int
    decreases s.len() - i,
{
    if 0 <= i <= s.len() {
        let e = ident_run_end(s, i);
        proof {
            lemma_ident_run_end(s, i);
        }
        if e < s.len() && s[e] == '.' && e + 1 < s.len() && is_ident_start(s[e + 1]) {
            dotted_end(s, e + 1)
        } else {
            e
        }
    } else {
        i
    }
}

pub proof fn lemma_dotted_end(s: Seq<char>, i: int)
    requires
        0 <= i <= s.len(),
    ensures
        i <= dotted_end(s, i) <= s.len(),
    decreases s.len() - i,
{
    lemma_ident_run_end(s, i);
    let e = ident_run_end(s, i);
    if e < s.len() && s[e] == '.' && e + 1 < s.len() && is_ident_start(s[e + 1]) {
        lemma_dotted_end(s, e + 1);
    }
}

pub fn exec_ident_run_end(s: &str, i: usize) -> (r: usize)
    requires
        i <= s@.len(),
    ensures
        r as int == ident_run_end(s@, i as int),
        i <= r <= s@.len(),
{
    let n = s.unicode_len();
    let mut k: usize = i;
    while k < n && ident_char_char(s.get_char(k))
        invariant
            n == s@.len(),
            i <= k <= n,
            ident_run_end(s@, i as int) == ident_run_end(s@, k as int),
        decreases n - k,
    {
        k += 1;
    }
    k
}

pub fn exec_skip_spaces(s: &str, i: usize) -> (r: usize)
    requires
        i <= s@.len(),
    ensures
        r as int == skip_spaces_at(s@, i as int),
        i <= r <= s@.len(),
{
    let n = s.unicode_len();
    let mut k: usize = i;
    while k < n && crate::text::is_space_char(s.get_char(k))
        invariant
            n == s@.len(),
            i <= k <= n,
            skip_spaces_at(s@, i as int) == skip_spaces_at(s@, k as int),
        decreases n - k,
    {
        k += 1;
    }
    k
}

pub fn exec_dotted_end(s: &str, i: usize) -> (r: usize)
    requires
        i <= s@.len(),
    ensures
        r as int == dotted_end(s@, i as int),
        i <= r <= s@.len(),
{
    let n = s.unicode_len();
    let mut k: usize = i;
    loop
        invariant
            n == s@.len(),
            i <= k <= n,
            dotted_end(s@, i as int) == dotted_end(s@, k as int),
        decreases n - k,
    {
        let e = exec_ident_run_end(s, k);
        if e < n && s.get_char(e) == '.' && e + 1 < n && ident_start_char(s.get_char(e + 1)) {
            k = e + 1;
        } else {
            return e;
        }
    }
}

/// View of an optional owned string.
pub open spec fn opt_str_view(r: Option<String>) -> Option<Seq<char>> {
    match r {
        Some(x) => Some(x@),
        None => None,
    }
}

/// Named declaration at `i`: `function <dotted.name>(` — the full dotted
/// name, after at least one whitespace character following the keyword.
pub open spec fn try_named_at(s: Seq<char>, i: int) -> Option<Seq<char>> {
    if has_seq_at(s, i, "function"@) {
        let j = skip_spaces_at(s, i + "function"@.len());
        if j > i + "function"@.len() && j < s.len() && is_ident_start(s[j]) {
            let e = dotted_end(s, j);
            let k = skip_spaces_at(s, e);
            if k < s.len() && s[k] == '(' {
                Some(s.subrange(j, e))
            } else {
                None
            }
        } else {
            None
        }
    } else {
        None
    }
}

/// Local declaration at `i`: `local function <simple_name>(` — the simple
/// (undotted) name.
pub open spec fn try_local_at(s: Seq<char>, i: int) -> Option<Seq<char>> {
    if has_seq_at(s, i, "local"@) {
        let j = skip_spaces_at(s, i + "local"@.len());
        if j > i + "local"@.len() && has_seq_at(s, j, "function"@) {
            let k = skip_spaces_at(s, j + "function"@.len());
            if k > j + "function"@.len() && k < s.len() && is_ident_start(s[k]) {
                let e = ident_run_end(s, k);
                let m = skip_spaces_at(s, e);
                if m < s.len() && s[m] == '(' {
                    Some(s.subrange(k, e))
                } else {
                    None
                }
            } else {
                None
            }
        } else {
            None
        }
    } else {
        None
    }
}

/// Method-style declaration at `i`: `<dotted.receiver>:<method>(` — the
/// name is synthesized as `receiver.method`.
pub open spec fn try_method_at(s: Seq<char>, i: int) -> Option<Seq<char>> {
    if 0 <= i < s.len() && is_ident_start(s[i]) {
        let e = dotted_end(s, i);
        if e < s.len() && s[e] == ':' && e + 1 < s.len() && is_ident_start(s[e + 1]) {
            let m = ident_run_end(s, e + 1);
            let k = skip_spaces_at(s, m);
            if k < s.len() && s[k] == '(' {
                Some(s.subrange(i, e) + "."@ + s.subrange(e + 1, m))
            } else {
                None
            }
        } else {
            None
        }
    } else {
        None
    }
}

/// Assignment-style declaration at `i`: `<dotted.name> = function(` — the
/// full dotted name.
pub open spec fn try_assign_at(s: Seq<char>, i: int) -> Option<Seq<char>> {
    if 0 <= i < s.len() && is_ident_start(s[i]) {
        let e = dotted_end(s, i);
        let j = skip_spaces_at(s, e);
        if j < s.len() && s[j] == '=' {
            let k = skip_spaces_at(s, j + 1);
            if has_seq_at(s, k, "function"@) {
                let m = skip_spaces_at(s, k + "function"@.len());
                if m < s.len() && s[m] == '(' {
                    Some(s.subrange(i, e))
                } else {
                    None
                }
            } else {
                None
            }
        } else {
            None
        }
    } else {
        None
    }
}

/// Leftmost position at or after `i` where the named pattern matches.
pub open spec fn find_named_from(s: Seq<char>, i: int) -> Option<Seq<char>>
    decreases s.len() - i,
{
    if !(0 <= i < s.len()) {
        None
    } else if try_named_at(s, i) is Some {
        try_named_at(s, i)
    } else {
        find_named_from(s, i + 1)
    }
}

/// Leftmost position at or after `i` where the local pattern matches.
pub open spec fn find_local_from(s: Seq<char>, i: int) -> Option<Seq<char>>
    decreases s.len() - i,
{
    if !(0 <= i < s.len()) {
        None
    } else if try_local_at(s, i) is Some {
        try_local_at(s, i)
    } else {
        find_local_from(s, i + 1)
    }
}

/// Leftmost position at or after `i` where the method pattern matches.
pub open spec fn find_method_from(s: Seq<char>, i: int) -> Option<Seq<char>>
    decreases s.len() - i,
{
    if !(0 <= i < s.len()) {
        None
    } else if try_method_at(s, i) is Some {
        try_method_at(s, i)
    } else {
        find_method_from(s, i + 1)
    }
}

/// Leftmost position at or after `i` where the assignment pattern matches.
pub open spec fn find_assign_from(s: Seq<char>, i: int) -> Option<Seq<char>>
    decreases s.len() - i,
{
    if !(0 <= i < s.len()) {
        None
    } else if try_assign_at(s, i) is Some {
        try_assign_at(s, i)
    } else {
        find_assign_from(s, i + 1)
    }
}

/// The declared name extracted from a line, if any: the four declaration
/// patterns are tried in priority order — named, local, method-style,
/// assignment-style — and the first pattern that matches anywhere in the
/// line wins, at its leftmost match.
pub open spec fn extract_name_spec(l: Seq<char>) -> Option<Seq<char>> {
    if find_named_from(l, 0) is Some {
        find_named_from(l, 0)
    } else if find_local_from(l, 0) is Some {
        find_local_from(l, 0)
    } else if find_method_from(l, 0) is Some {
        find_method_from(l, 0)
    } else {
        find_assign_from(l, 0)
    }
}

fn exec_try_named_at(s: &str, i: usize) -> (r: Option<String>)
    requires
        i <= s@.len(),
    ensures
        opt_str_view(r) == try_named_at(s@, i as int),
{
    let n = s.unicode_len();
    if !str_has_at(s, i, "function") {
        return None;
    }
    let fl = "function".unicode_len();
    let j = exec_skip_spaces(s, i + fl);
    if j > i + fl && j < n && ident_start_char(s.get_char(j)) {
        let e = exec_dotted_end(s, j);
        let k = exec_skip_spaces(s, e);
        if k < n && s.get_char(k) == '(' {
            Some(s.substring_char(j, e).to_owned())
        } else {
            None
        }
    } else {
        None
    }
}

fn exec_try_local_at(s: &str, i: usize) -> (r: Option<String>)
    requires
        i <= s@.len(),
    ensures
        opt_str_view(r) == try_local_at(s@, i as int),
{
    let n = s.unicode_len();
    if !str_has_at(s, i, "local") {
        return None;
    }
    let ll = "local".unicode_len();
    let j = exec_skip_spaces(s, i + ll);
    if j > i + ll && str_has_at(s, j, "function") {
        let fl = "function".unicode_len();
        let k = exec_skip_spaces(s, j + fl);
        if k > j + fl && k < n && ident_start_char(s.get_char(k)) {
            let e = exec_ident_run_end(s, k);
            let m = exec_skip_spaces(s, e);
            if m < n && s.get_char(m) == '(' {
                Some(s.substring_char(k, e).to_owned())
            } else {
                None
            }
        } else {
            None
        }
    } else {
        None
    }
}

fn exec_try_method_at(s: &str, i: usize) -> (r: Option<String>)
    requires
        i < s@.len(),
    ensures
        opt_str_view(r) == try_method_at(s@, i as int),
{
    let n = s.unicode_len();
    if !ident_start_char(s.get_char(i)) {
        return None;
    }
    let e = exec_dotted_end(s, i);
    if e < n && s.get_char(e) == ':' && e + 1 < n && ident_start_char(s.get_char(e + 1)) {
        let m = exec_ident_run_end(s, e + 1);
        let k = exec_skip_spaces(s, m);
        if k < n && s.get_char(k) == '(' {
            let mut name = s.substring_char(i, e).to_owned();
            name.append(".");
            name.append(s.substring_char(e + 1, m));
            Some(name)
        } else {
            None
        }
    } else {
        None
    }
}

fn exec_try_assign_at(s: &str, i: usize) -> (r: Option<String>)
    requires
        i < s@.len(),
    ensures
        opt_str_view(r) == try_assign_at(s@, i as int),
{
    let n = s.unicode_len();
    if !ident_start_char(s.get_char(i)) {
        return None;
    }
    let e = exec_dotted_end(s, i);
    let j = exec_skip_spaces(s, e);
    if j < n && s.get_char(j) == '=' {
        let k = exec_skip_spaces(s, j + 1);
        if str_has_at(s, k, "function") {
            let fl = "function".unicode_len();
            let m = exec_skip_spaces(s, k + fl);
            if m < n && s.get_char(m) == '(' {
                Some(s.substring_char(i, e).to_owned())
            } else {
                None
            }
        } else {
            None
        }
    } else {
        None
    }
}

fn exec_find_named(s: &str) -> (r: Option<String>)
    ensures
        opt_str_view(r) == find_named_from(s@, 0),
{
    let n = s.unicode_len();
    let mut i: usize = 0;
    while i < n
        invariant
            n == s@.len(),
            i <= n,
            find_named_from(s@, 0) == find_named_from(s@, i as int),
        decreases n - i,
    {
        let r = exec_try_named_at(s, i);
        if r.is_some() {
            return r;
        }
        i += 1;
    }
    None
}

fn exec_find_local(s: &str) -> (r: Option<String>)
    ensures
        opt_str_view(r) == find_local_from(s@, 0),
{
    let n = s.unicode_len();
    let mut i: usize = 0;
    while i < n
        invariant
            n == s@.len(),
            i <= n,
            find_local_from(s@, 0) == find_local_from(s@, i as int),
        decreases n - i,
    {
        let r = exec_try_local_at(s, i);
        if r.is_some() {
            return r;
        }
        i += 1;
    }
    None
}

fn exec_find_method(s: &str) -> (r: Option<String>)
    ensures
        opt_str_view(r) == find_method_from(s@, 0),
{
    let n = s.unicode_len();
    let mut i: usize = 0;
    while i < n
        invariant
            n == s@.len(),
            i <= n,
            find_method_from(s@, 0) == find_method_from(s@, i as int),
        decreases n - i,
    {
        let r = exec_try_method_at(s, i);
        if r.is_some() {
            return r;
        }
        i += 1;
    }
    None
}

fn exec_find_assign(s: &str) -> (r: Option<String>)
    ensures
        opt_str_view(r) == find_assign_from(s@, 0),
{
    let n = s.unicode_len();
    let mut i: usize = 0;
    while i < n
        invariant
            n == s@.len(),
            i <= n,
            find_assign_from(s@, 0) == find_assign_from(s@, i as int),
        decreases n - i,
    {
        let r = exec_try_assign_at(s, i);
        if r.is_some() {
            return r;
        }
        i += 1;
    }
    None
}

/// Extracts the declared name from a candidate declaration line, trying
/// the four declaration patterns in priority order.
pub fn extract_function_name(line: &str) -> (r: Option<String>)
    ensures
        opt_str_view(r) == extract_name_spec(line@),
{
    let r = exec_find_named(line);
    if r.is_some() {
        return r;
    }
    let r = exec_find_local(line);
    if r.is_some() {
        return r;
    }
    let r = exec_find_method(line);
    if r.is_some() {
        return r;
    }
    exec_find_assign(line)
}

} // verus!
