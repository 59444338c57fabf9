//! Laws of the scanner, stated and proved over the specification
//! functions: exact recovery of the (category, name) pair for each
//! declaration syntax, single-space merging of descriptions, the
//! three-line lookahead window, and determinism of the whole scan.

use vstd::prelude::*;

use crate::locate::{
    dotted_end, extract_name_spec, find_assign_from, find_local_from, find_method_from,
    find_named_from, ident_run_end, is_ident_char, is_ident_start, lemma_dotted_end,
    try_assign_at, try_local_at, try_method_at, try_named_at,
};
use crate::model::{empty_block, BlockModel, DocModel};
use crate::scan::{accum_block, categorize_spec, locate_decl, parse_block, scan_all};
use crate::tags::apply_tag;
use crate::text::{
    find_char_from, has_prefix, has_seq_at, is_space, lemma_find_char_from, skip_spaces_at,
    trim_spec,
};

verus! {

/// A simple (undotted) identifier: a letter or underscore followed by
/// letters, digits and underscores.
pub open spec fn is_simple_ident(n: Seq<char>) -> bool {
    n.len() > 0 && is_ident_start(n[0]) && forall|k: int| 0 <= k < n.len() ==> is_ident_char(n[k])
}

/// A line consisting of whitespace only.
pub open spec fn is_blank_line(l: Seq<char>) -> bool {
    forall|k: int| 0 <= k < l.len() ==> is_space(l[k])
}

/// If the identifier-character run occupies exactly `[i, e)`, the run end
/// is `e`.
proof fn lemma_run_exact(s: Seq<char>, i: int, e: int)
    requires
        0 <= i <= e <= s.len(),
        forall|k: int| i <= k < e ==> is_ident_char(s[k]),
        e == s.len() || !is_ident_char(s[e]),
    ensures
        ident_run_end(s, i) == e,
    decreases e - i,
{
    if i < e {
        lemma_run_exact(s, i + 1, e);
    }
}

/// A simple identifier occupying `[i, i + n.len())` with a suitable
/// boundary is exactly what the dotted-name scan consumes.
proof fn lemma_dotted_simple(s: Seq<char>, i: int, n: Seq<char>)
    requires
        is_simple_ident(n),
        has_seq_at(s, i, n),
        i + n.len() == s.len() || (!is_ident_char(s[i + n.len()]) && !(s[i + n.len()] == '.' && i
            + n.len() + 1 < s.len() && is_ident_start(s[i + n.len() + 1]))),
    ensures
        ident_run_end(s, i) == i + n.len(),
        dotted_end(s, i) == i + n.len(),
{
    assert forall|k: int| i <= k < i + n.len() implies is_ident_char(s[k]) by {
        assert(s[k] == n[k - i]);
    }
    lemma_run_exact(s, i, i + n.len());
}

/// A dotted two-segment name `a.b` occupying `[i, i + a.len() + 1 +
/// b.len())` with a suitable boundary is exactly what the dotted-name
/// scan consumes.
proof fn lemma_dotted_two(s: Seq<char>, i: int, a: Seq<char>, b: Seq<char>)
    requires
        is_simple_ident(a),
        is_simple_ident(b),
        has_seq_at(s, i, a),
        i + a.len() < s.len() && s[i + a.len()] == '.',
        has_seq_at(s, i + a.len() + 1, b),
        ({
            let e = i + a.len() + 1 + b.len();
            e == s.len() || (!is_ident_char(s[e]) && !(s[e] == '.' && e + 1 < s.len()
                && is_ident_start(s[e + 1])))
        }),
    ensures
        dotted_end(s, i) == i + a.len() + 1 + b.len(),
{
    assert forall|k: int| i <= k < i + a.len() implies is_ident_char(s[k]) by {
        assert(s[k] == a[k - i]);
    }
    assert(!is_ident_char('.')) by {
        assert('.' as u32 == 46);
    }
    lemma_run_exact(s, i, i + a.len());
    assert(is_ident_start(s[i + a.len() + 1])) by {
        assert(s[i + a.len() + 1] == b[0]);
    }
    lemma_dotted_simple(s, i + a.len() + 1, b);
    assert(dotted_end(s, i) == dotted_end(s, i + a.len() + 1));
}

/// A nonempty skip of whitespace over a single space.
proof fn lemma_skip_one_space(s: Seq<char>, i: int)
    requires
        0 <= i < s.len(),
        is_space(s[i]),
        i + 1 == s.len() || !is_space(s[i + 1]),
    ensures
        skip_spaces_at(s, i) == i + 1,
{
    assert(skip_spaces_at(s, i + 1) == i + 1);
}

/// The first dot of `a.b` (for simple `a`, `b`) stands at `a.len()`.
proof fn lemma_first_dot(a: Seq<char>, b: Seq<char>)
    requires
        is_simple_ident(a),
        is_simple_ident(b),
    ensures
        find_char_from(a + "."@ + b, 0, '.') == Some(a.len() as int),
{
    let n = a + "."@ + b;
    reveal_strlit(".");
    assert(!is_ident_char('.')) by {
        assert('.' as u32 == 46);
    }
    lemma_find_char_from(n, 0, '.');
    assert(n[a.len() as int] == '.');
    match find_char_from(n, 0, '.') {
        Some(k) => {
            if k < a.len() {
                assert(n[k] == a[k]);
                assert(is_ident_char(n[k]));
                assert(false);
            }
            if k > a.len() {
                assert(n[a.len() as int] != '.');
                assert(false);
            }
        },
        None => {
            assert(n[a.len() as int] != '.');
            assert(false);
        },
    }
}

/// Categorization of a dotted name `a.b`: category `a`, short name `b`.
pub proof fn lemma_categorize_dotted(a: Seq<char>, b: Seq<char>, class_name: Option<Seq<char>>)
    requires
        is_simple_ident(a),
        is_simple_ident(b),
    ensures
        categorize_spec(a + "."@ + b, class_name) == (a, b),
{
    let n = a + "."@ + b;
    reveal_strlit(".");
    lemma_first_dot(a, b);
    assert(n.subrange(0, a.len() as int) =~= a);
    assert(n.subrange(a.len() as int + 1, n.len() as int) =~= b);
}

/// Categorization of an undotted name: the class context when present,
/// else the fixed default category; the name is unchanged.
pub proof fn lemma_categorize_simple(n: Seq<char>, class_name: Option<Seq<char>>)
    requires
        is_simple_ident(n),
    ensures
        categorize_spec(n, class_name) == (
            match class_name {
                Some(c) => c,
                None => "Global"@,
            },
            n,
        ),
{
    assert(!is_ident_char('.')) by {
        assert('.' as u32 == 46);
    }
    lemma_find_char_from(n, 0, '.');
    match find_char_from(n, 0, '.') {
        Some(k) => {
            assert(is_ident_char(n[k]));
            assert(false);
        },
        None => {},
    }
}

proof fn lemma_find_named_none(s: Seq<char>, i: int)
    requires
        forall|j: int| try_named_at(s, j) is None,
    ensures
        find_named_from(s, i) is None,
    decreases s.len() - i,
{
    if 0 <= i < s.len() {
        lemma_find_named_none(s, i + 1);
    }
}

proof fn lemma_find_local_none(s: Seq<char>, i: int)
    requires
        forall|j: int| try_local_at(s, j) is None,
    ensures
        find_local_from(s, i) is None,
    decreases s.len() - i,
{
    if 0 <= i < s.len() {
        lemma_find_local_none(s, i + 1);
    }
}

proof fn lemma_find_method_none(s: Seq<char>, i: int)
    requires
        forall|j: int| try_method_at(s, j) is None,
    ensures
        find_method_from(s, i) is None,
    decreases s.len() - i,
{
    if 0 <= i < s.len() {
        lemma_find_method_none(s, i + 1);
    }
}

/// In a line without whitespace, the named pattern never matches: it
/// demands at least one whitespace character after the keyword.
proof fn lemma_no_space_no_named(s: Seq<char>)
    requires
        forall|k: int| 0 <= k < s.len() ==> !is_space(s[k]),
    ensures
        forall|j: int| try_named_at(s, j) is None,
{
    reveal_strlit("function");
    assert forall|j: int| try_named_at(s, j) is None by {
        if has_seq_at(s, j, "function"@) {
            let p = j + "function"@.len();
            assert(skip_spaces_at(s, p) == p);
            assert(try_named_at(s, j) is None);
        }
    }
}

/// In a line without whitespace, the local pattern never matches either.
proof fn lemma_no_space_no_local(s: Seq<char>)
    requires
        forall|k: int| 0 <= k < s.len() ==> !is_space(s[k]),
    ensures
        forall|j: int| try_local_at(s, j) is None,
{
    reveal_strlit("local");
    assert forall|j: int| try_local_at(s, j) is None by {
        if has_seq_at(s, j, "local"@) {
            let p = j + "local"@.len();
            assert(skip_spaces_at(s, p) == p);
            assert(try_local_at(s, j) is None);
        }
    }
}

/// In a line without a colon, the method pattern never matches.
proof fn lemma_no_colon_no_method(s: Seq<char>)
    requires
        forall|k: int| 0 <= k < s.len() ==> s[k] != ':',
    ensures
        forall|j: int| try_method_at(s, j) is None,
{
    assert forall|j: int| try_method_at(s, j) is None by {
        if 0 <= j < s.len() && is_ident_start(s[j]) {
            lemma_dotted_end(s, j);
            let e = dotted_end(s, j);
            if e < s.len() {
                assert(s[e] != ':');
            }
        }
    }
}

/// Law: a named declaration line `function a.b(...` yields exactly the
/// pair (category `a`, name `b`), for any class context and any tail.
pub proof fn lemma_locate_named(a: Seq<char>, b: Seq<char>, tail: Seq<char>, class_name: Option<
    Seq<char>,
>)
    requires
        is_simple_ident(a),
        is_simple_ident(b),
    ensures
        ({
            let l = "function "@ + a + "."@ + b + "("@ + tail;
            extract_name_spec(l) == Some(a + "."@ + b) && categorize_spec(
                a + "."@ + b,
                class_name,
            ) == (a, b)
        }),
{
    reveal_strlit("function ");
    reveal_strlit("function");
    reveal_strlit(".");
    reveal_strlit("(");
    let l = "function "@ + a + "."@ + b + "("@ + tail;
    let al = a.len() as int;
    let bl = b.len() as int;
    assert(has_seq_at(l, 0, "function"@)) by {
        assert(forall|k: int| 0 <= k < 8 ==> l[k] == "function "@[k]);
    }
    assert(l[8] == ' ');
    assert(l[9] == a[0]);
    assert(is_ident_start(a[0]));
    lemma_skip_one_space(l, 8);
    assert(skip_spaces_at(l, 9) == 9);
    assert(skip_spaces_at(l, 8) == 9);
    assert(has_seq_at(l, 9, a)) by {
        assert(forall|k: int| 0 <= k < al ==> l[9 + k] == a[k]);
    }
    assert(l[9 + al] == '.');
    assert(has_seq_at(l, 9 + al + 1, b)) by {
        assert(forall|k: int| 0 <= k < bl ==> l[9 + al + 1 + k] == b[k]);
    }
    let e = 9 + al + 1 + bl;
    assert(l[e] == '(');
    assert(!is_ident_char('(') && '(' != '.') by {
        assert('(' as u32 == 40);
    }
    lemma_dotted_two(l, 9, a, b);
    assert(dotted_end(l, 9) == e);
    assert(!is_space('(')) by {
        assert('(' as u32 == 40);
    }
    assert(skip_spaces_at(l, e) == e);
    assert(try_named_at(l, 0) == Some(l.subrange(9, e)));
    assert(l.subrange(9, e) =~= a + "."@ + b);
    assert(find_named_from(l, 0) == Some(a + "."@ + b));
    lemma_categorize_dotted(a, b, class_name);
}

/// Law: a named declaration line `function n(...` with an undotted name
/// yields exactly the pair (class context or the default category, `n`).
pub proof fn lemma_locate_named_simple(n: Seq<char>, tail: Seq<char>, class_name: Option<
    Seq<char>,
>)
    requires
        is_simple_ident(n),
    ensures
        ({
            let l = "function "@ + n + "("@ + tail;
            extract_name_spec(l) == Some(n) && categorize_spec(n, class_name) == (
                match class_name {
                    Some(c) => c,
                    None => "Global"@,
                },
                n,
            )
        }),
{
    reveal_strlit("function ");
    reveal_strlit("function");
    reveal_strlit("(");
    let l = "function "@ + n + "("@ + tail;
    let nl = n.len() as int;
    assert(has_seq_at(l, 0, "function"@)) by {
        assert(forall|k: int| 0 <= k < 8 ==> l[k] == "function "@[k]);
    }
    assert(l[8] == ' ');
    assert(l[9] == n[0]);
    lemma_skip_one_space(l, 8);
    assert(skip_spaces_at(l, 9) == 9);
    assert(skip_spaces_at(l, 8) == 9);
    assert(has_seq_at(l, 9, n)) by {
        assert(forall|k: int| 0 <= k < nl ==> l[9 + k] == n[k]);
    }
    let e = 9 + nl;
    assert(l[e] == '(');
    assert(!is_ident_char('(') && '(' != '.' && !is_space('(')) by {
        assert('(' as u32 == 40);
    }
    lemma_dotted_simple(l, 9, n);
    assert(skip_spaces_at(l, e) == e);
    assert(try_named_at(l, 0) == Some(l.subrange(9, e)));
    assert(l.subrange(9, e) =~= n);
    assert(find_named_from(l, 0) == Some(n));
    lemma_categorize_simple(n, class_name);
}

/// Law: a local declaration line `local function n(...` yields exactly
/// the pair (class context or the default category, name `n`).
pub proof fn lemma_locate_local(n: Seq<char>, tail: Seq<char>, class_name: Option<Seq<char>>)
    requires
        is_simple_ident(n),
    ensures
        ({
            let l = "local function "@ + n + "("@ + tail;
            extract_name_spec(l) == Some(n) && categorize_spec(n, class_name) == (
                match class_name {
                    Some(c) => c,
                    None => "Global"@,
                },
                n,
            )
        }),
{
    reveal_strlit("local function ");
    reveal_strlit("function");
    reveal_strlit("(");
    let l = "local function "@ + n + "("@ + tail;
    let nl = n.len() as int;
    // the named pattern first matches at position 6
    assert forall|j: int| 0 <= j < 6 implies try_named_at(l, j) is None by {
        assert(!has_seq_at(l, j, "function"@)) by {
            if has_seq_at(l, j, "function"@) {
                assert(l[j] == "local function "@[j]);
                assert(l[j] == "function"@[0]);
                assert(false);
            }
        }
    }
    assert(has_seq_at(l, 6, "function"@)) by {
        assert(forall|k: int| 0 <= k < 8 ==> l[6 + k] == #[trigger] "function"@[k]);
    }
    assert(l[14] == ' ');
    assert(l[15] == n[0]);
    lemma_skip_one_space(l, 14);
    assert(skip_spaces_at(l, 15) == 15);
    assert(skip_spaces_at(l, 14) == 15);
    assert(has_seq_at(l, 15, n)) by {
        assert(forall|k: int| 0 <= k < nl ==> l[15 + k] == n[k]);
    }
    let e = 15 + nl;
    assert(l[e] == '(');
    assert(!is_ident_char('(') && '(' != '.' && !is_space('(')) by {
        assert('(' as u32 == 40);
    }
    lemma_dotted_simple(l, 15, n);
    assert(skip_spaces_at(l, e) == e);
    assert(try_named_at(l, 6) == Some(l.subrange(15, e)));
    assert(l.subrange(15, e) =~= n);
    assert(find_named_from(l, 6) == Some(n));
    assert(find_named_from(l, 5) == Some(n));
    assert(find_named_from(l, 4) == Some(n));
    assert(find_named_from(l, 3) == Some(n));
    assert(find_named_from(l, 2) == Some(n));
    assert(find_named_from(l, 1) == Some(n));
    assert(find_named_from(l, 0) == Some(n));
    lemma_categorize_simple(n, class_name);
}

/// Law: a method-style declaration line `r:m(` with simple receiver and
/// method yields exactly the pair (category `r`, name `m`), with or
/// without a class context.
pub proof fn lemma_locate_method(r: Seq<char>, m: Seq<char>, class_name: Option<Seq<char>>)
    requires
        is_simple_ident(r),
        is_simple_ident(m),
    ensures
        ({
            let l = r + ":"@ + m + "("@;
            extract_name_spec(l) == Some(r + "."@ + m) && categorize_spec(r + "."@ + m, class_name)
                == (r, m)
        }),
{
    reveal_strlit(":");
    reveal_strlit("(");
    reveal_strlit(".");
    let l = r + ":"@ + m + "("@;
    let rl = r.len() as int;
    let ml = m.len() as int;
    assert(!is_space(':') && !is_ident_char(':') && ':' != '.') by {
        assert(':' as u32 == 58);
    }
    assert(!is_space('(') && !is_ident_char('(') && '(' != '.') by {
        assert('(' as u32 == 40);
    }
    assert forall|k: int| 0 <= k < l.len() implies !is_space(l[k]) by {
        if k < rl {
            assert(l[k] == r[k]);
            assert(is_ident_char(l[k]));
        } else if k == rl {
            assert(l[k] == ':');
        } else if k < rl + 1 + ml {
            assert(l[k] == m[k - rl - 1]);
            assert(is_ident_char(l[k]));
        } else {
            assert(l[k] == '(');
        }
    }
    lemma_no_space_no_named(l);
    lemma_no_space_no_local(l);
    lemma_find_named_none(l, 0);
    lemma_find_local_none(l, 0);
    // the method pattern matches at position 0
    assert(l[0] == r[0]);
    assert(has_seq_at(l, 0, r)) by {
        assert(forall|k: int| 0 <= k < rl ==> l[k] == r[k]);
    }
    assert(l[rl] == ':');
    lemma_dotted_simple(l, 0, r);
    assert(l[rl + 1] == m[0]);
    assert forall|k: int| rl + 1 <= k < rl + 1 + ml implies is_ident_char(l[k]) by {
        assert(l[k] == m[k - rl - 1]);
    }
    lemma_run_exact(l, rl + 1, rl + 1 + ml);
    let e2 = rl + 1 + ml;
    assert(l[e2] == '(');
    assert(skip_spaces_at(l, e2) == e2);
    assert(try_method_at(l, 0) == Some(l.subrange(0, rl) + "."@ + l.subrange(rl + 1, e2)));
    assert(l.subrange(0, rl) =~= r);
    assert(l.subrange(rl + 1, e2) =~= m);
    assert(find_method_from(l, 0) == Some(r + "."@ + m));
    lemma_categorize_dotted(r, m, class_name);
}

/// Law: an assignment-style declaration line `a.b=function(` yields
/// exactly the pair (category `a`, name `b`).
pub proof fn lemma_locate_assign(a: Seq<char>, b: Seq<char>, class_name: Option<Seq<char>>)
    requires
        is_simple_ident(a),
        is_simple_ident(b),
    ensures
        ({
            let l = a + "."@ + b + "=function("@;
            extract_name_spec(l) == Some(a + "."@ + b) && categorize_spec(
                a + "."@ + b,
                class_name,
            ) == (a, b)
        }),
{
    reveal_strlit(".");
    reveal_strlit("=function(");
    reveal_strlit("function");
    let l = a + "."@ + b + "=function("@;
    let al = a.len() as int;
    let bl = b.len() as int;
    let e = al + 1 + bl;
    assert(!is_space('=') && !is_ident_char('=') && '=' != '.' && '=' != ':') by {
        assert('=' as u32 == 61);
    }
    assert(!is_space('.') && !is_ident_char('.') && '.' != ':') by {
        assert('.' as u32 == 46);
    }
    assert(!is_space('(') && !is_ident_char('(') && '(' != '.' && '(' != ':') by {
        assert('(' as u32 == 40);
    }
    assert forall|k: int| 0 <= k < l.len() implies !is_space(l[k]) && l[k] != ':' by {
        if k < al {
            assert(l[k] == a[k]);
            assert(is_ident_char(l[k]));
        } else if k == al {
            assert(l[k] == '.');
        } else if k < e {
            assert(l[k] == b[k - al - 1]);
            assert(is_ident_char(l[k]));
        } else {
            assert(l[k] == "=function("@[k - e]);
        }
    }
    lemma_no_space_no_named(l);
    lemma_no_space_no_local(l);
    lemma_no_colon_no_method(l);
    lemma_find_named_none(l, 0);
    lemma_find_local_none(l, 0);
    lemma_find_method_none(l, 0);
    // the assignment pattern matches at position 0
    assert(l[0] == a[0]);
    assert(has_seq_at(l, 0, a)) by {
        assert(forall|k: int| 0 <= k < al ==> l[k] == a[k]);
    }
    assert(l[al] == '.');
    assert(has_seq_at(l, al + 1, b)) by {
        assert(forall|k: int| 0 <= k < bl ==> l[al + 1 + k] == b[k]);
    }
    assert(l[e] == '=');
    lemma_dotted_two(l, 0, a, b);
    assert(dotted_end(l, 0) == e);
    assert(skip_spaces_at(l, e) == e);
    assert(l[e + 1] == 'f');
    assert(skip_spaces_at(l, e + 1) == e + 1);
    assert(has_seq_at(l, e + 1, "function"@)) by {
        assert(forall|k: int| 0 <= k < 8 ==> l[e + 1 + k] == #[trigger] "function"@[k]);
    }
    assert(l[e + 9] == '(');
    assert(skip_spaces_at(l, e + 9) == e + 9);
    assert(try_assign_at(l, 0) == Some(l.subrange(0, e)));
    assert(l.subrange(0, e) =~= a + "."@ + b);
    assert(find_assign_from(l, 0) == Some(a + "."@ + b));
    lemma_categorize_dotted(a, b, class_name);
}

/// Law: no declared name can be extracted from a blank line.
pub proof fn lemma_blank_no_decl(l: Seq<char>)
    requires
        is_blank_line(l),
    ensures
        extract_name_spec(l) is None,
{
    reveal_strlit("function");
    reveal_strlit("local");
    assert forall|j: int| try_named_at(l, j) is None by {
        if has_seq_at(l, j, "function"@) {
            assert(l[j + 0] == "function"@[0]);
            assert(is_space(l[j + 0]));
            assert(false);
        }
    }
    assert forall|j: int| try_local_at(l, j) is None by {
        if has_seq_at(l, j, "local"@) {
            assert(l[j + 0] == "local"@[0]);
            assert(is_space(l[j + 0]));
            assert(false);
        }
    }
    assert forall|j: int| try_method_at(l, j) is None by {
        if 0 <= j < l.len() {
            assert(is_space(l[j]));
            assert(!is_ident_start(l[j]));
        }
    }
    assert forall|j: int| try_assign_at(l, j) is None by {
        if 0 <= j < l.len() {
            assert(is_space(l[j]));
            assert(!is_ident_start(l[j]));
        }
    }
    lemma_find_named_none(l, 0);
    lemma_find_local_none(l, 0);
    lemma_find_method_none(l, 0);
    lemma_find_assign_none_all(l, 0);
}

proof fn lemma_find_assign_none_all(s: Seq<char>, i: int)
    requires
        forall|j: int| try_assign_at(s, j) is None,
    ensures
        find_assign_from(s, i) is None,
    decreases s.len() - i,
{
    if 0 <= i < s.len() {
        lemma_find_assign_none_all(s, i + 1);
    }
}

/// The end of the annotation run of the doc block starting at `i`: the
/// anchor of its three-line lookahead window.
pub open spec fn block_end(lines: Seq<Seq<char>>, i: int) -> int {
    accum_block(lines, i, empty_block(i)).1
}

/// Law: a doc block whose three-line lookahead window holds only blank
/// lines (or runs past the input) yields no entry — the block is
/// discarded.
pub proof fn lemma_window_exceeded(lines: Seq<Seq<char>>, i: int)
    requires
        0 <= i <= lines.len(),
        block_end(lines, i) < lines.len() ==> is_blank_line(lines[block_end(lines, i)]),
        block_end(lines, i) + 1 < lines.len() ==> is_blank_line(
            lines[block_end(lines, i) + 1],
        ),
        block_end(lines, i) + 2 < lines.len() ==> is_blank_line(
            lines[block_end(lines, i) + 2],
        ),
    ensures
        parse_block(lines, i).0 is None,
{
    let j = block_end(lines, i);
    if 0 <= j < lines.len() {
        lemma_blank_no_decl(lines[j]);
    }
    if 0 <= j + 1 < lines.len() {
        lemma_blank_no_decl(lines[j + 1]);
    }
    if 0 <= j + 2 < lines.len() {
        lemma_blank_no_decl(lines[j + 2]);
    }
}

/// Law: a doc block followed by up to two blank lines and then a
/// declaration line within the three-line lookahead window is associated
/// with that declaration.
pub proof fn lemma_window_association(lines: Seq<Seq<char>>, i: int, d: int)
    requires
        0 <= i <= lines.len(),
        0 <= d < 3,
        block_end(lines, i) + d < lines.len(),
        extract_name_spec(lines[block_end(lines, i) + d]) is Some,
        forall|k: int| 0 <= k < d ==> is_blank_line(#[trigger] lines[block_end(lines, i) + k]),
    ensures
        ({
            let j = block_end(lines, i);
            locate_decl(lines, j) == extract_name_spec(lines[j + d]) && parse_block(
                lines,
                i,
            ).0 is Some
        }),
{
    let j = block_end(lines, i);
    crate::scan::lemma_accum_block_range(lines, i, crate::model::empty_block(i));
    if d > 0 {
        assert(is_blank_line(lines[j + 0]));
        lemma_blank_no_decl(lines[j]);
    }
    if d > 1 {
        assert(is_blank_line(lines[j + 1]));
        lemma_blank_no_decl(lines[j + 1]);
    }
}

/// Law: the scanner is deterministic — two runs over unchanged sources
/// yield the same documentation mapping, categories, entries and order.
pub proof fn lemma_scan_deterministic(srcs: Seq<Seq<char>>, d1: DocModel, d2: DocModel)
    requires
        d1 == scan_all(srcs, 0, Seq::empty()),
        d2 == scan_all(srcs, 0, Seq::empty()),
    ensures
        d1 == d2,
{
}

/// Law: two consecutive `desc` annotations merge into one description
/// joined by a single space.
pub proof fn lemma_desc_merge(b: BlockModel, t1: Seq<char>, t2: Seq<char>)
    requires
        b.description.len() == 0,
        trim_spec(t1).len() > 0,
    ensures
        apply_tag(apply_tag(b, "desc "@ + t1), "desc "@ + t2).description == trim_spec(t1) + " "@
            + trim_spec(t2),
{
    reveal_strlit("desc ");
    reveal_strlit("class ");
    let c1 = "desc "@ + t1;
    let c2 = "desc "@ + t2;
    assert(has_prefix(c1, "desc "@)) by {
        assert(forall|k: int| 0 <= k < 5 ==> c1[k] == "desc "@[k]);
    }
    assert(has_prefix(c2, "desc "@)) by {
        assert(forall|k: int| 0 <= k < 5 ==> c2[k] == "desc "@[k]);
    }
    assert(!has_prefix(c1, "class "@)) by {
        if has_prefix(c1, "class "@) {
            assert(c1[0] == 'c');
            assert(c1[0] == 'd');
            assert(false);
        }
    }
    assert(!has_prefix(c2, "class "@)) by {
        if has_prefix(c2, "class "@) {
            assert(c2[0] == 'c');
            assert(c2[0] == 'd');
            assert(false);
        }
    }
    assert(c1.subrange(5, c1.len() as int) =~= t1);
    assert(c2.subrange(5, c2.len() as int) =~= t2);
    let b1 = apply_tag(b, c1);
    assert(b1.description == trim_spec(t1));
}

} // verus!
