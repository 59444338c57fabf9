//! The JSON interchange format: a canonical encoder for the
//! documentation mapping and a parser for the same format, with a proved
//! round trip. Field names: `name`, `description`, `params` (with
//! per-item `name`/`type`/`description`) and `returns` (with per-item
//! `type`/`description`).

use vstd::prelude::*;
use vstd::string::StrSliceExecFns;
use vstd::string::StringExecFns;

use crate::model::{DocModel, Documentation, Function, FunctionModel, Param, ParamModel, Return, ReturnModel};
use crate::text::{has_seq_at, is_space, lemma_trim_unpadded, str_has_at, str_trim, trim_spec};

verus! {

/// The escape sequence for one character: quote, backslash, newline,
/// carriage return and tab are escaped; every other character stands for
/// itself.
pub open spec fn esc_char(c: char) -> Seq<char> {
    if c == '"' {
        seq!['\\', '"']
    } else if c == '\\' {
        seq!['\\', '\\']
    } else if c == '\n' {
        seq!['\\', 'n']
    } else if c == '\r' {
        seq!['\\', 'r']
    } else if c == '\t' {
        seq!['\\', 't']
    } else {
        seq![c]
    }
}

/// The escaped form of a string's characters.
pub open spec fn esc(s: Seq<char>) -> Seq<char>
    decreases s.len(),
{
    if s.len() == 0 {
        Seq::empty()
    } else {
        esc_char(s[0]) + esc(s.drop_first())
    }
}

/// A quoted, escaped JSON string.
pub open spec fn json_str(s: Seq<char>) -> Seq<char> {
    seq!['"'] + esc(s) + seq!['"']
}

/// Appending one character to the input appends its escape sequence.
pub proof fn lemma_esc_snoc(t: Seq<char>, c: char)
    ensures
        esc(t.push(c)) == esc(t) + esc_char(c),
    decreases t.len(),
{
    if t.len() == 0 {
        reveal_with_fuel(esc, 2);
        assert(t.push(c) =~= seq![c]);
        assert(t.push(c).drop_first() =~= Seq::<char>::empty());
        assert(esc(t.push(c)) =~= esc(t) + esc_char(c));
    } else {
        assert(t.push(c).drop_first() =~= t.drop_first().push(c));
        lemma_esc_snoc(t.drop_first(), c);
        assert(esc(t.push(c)) =~= esc(t) + esc_char(c));
    }
}

#[verifier::opaque]
pub open spec fn enc_param(p: ParamModel) -> Seq<char> {
    "{\"name\":"@ + json_str(p.name) + ",\"type\":"@ + json_str(p.param_type)
        + ",\"description\":"@ + json_str(p.description) + "}"@
}

pub open spec fn enc_params_rest(ps: Seq<ParamModel>, k: int) -> Seq<char>
    decreases ps.len() - k,
{
    if !(0 <= k < ps.len()) {
        Seq::empty()
    } else {
        ","@ + enc_param(ps[k]) + enc_params_rest(ps, k + 1)
    }
}

pub open spec fn enc_params(ps: Seq<ParamModel>) -> Seq<char> {
    if ps.len() == 0 {
        "[]"@
    } else {
        "["@ + enc_param(ps[0]) + enc_params_rest(ps, 1) + "]"@
    }
}

#[verifier::opaque]
pub open spec fn enc_return(r: ReturnModel) -> Seq<char> {
    "{\"type\":"@ + json_str(r.return_type) + ",\"description\":"@ + json_str(r.description)
        + "}"@
}

pub open spec fn enc_returns_rest(rs: Seq<ReturnModel>, k: int) -> Seq<char>
    decreases rs.len() - k,
{
    if !(0 <= k < rs.len()) {
        Seq::empty()
    } else {
        ","@ + enc_return(rs[k]) + enc_returns_rest(rs, k + 1)
    }
}

pub open spec fn enc_returns(rs: Seq<ReturnModel>) -> Seq<char> {
    if rs.len() == 0 {
        "[]"@
    } else {
        "["@ + enc_return(rs[0]) + enc_returns_rest(rs, 1) + "]"@
    }
}

#[verifier::opaque]
pub open spec fn enc_function(f: FunctionModel) -> Seq<char> {
    "{\"name\":"@ + json_str(f.name) + ",\"description\":"@ + json_str(f.description)
        + ",\"params\":"@ + enc_params(f.params) + ",\"returns\":"@ + enc_returns(f.returns)
        + "}"@
}

pub open spec fn enc_functions_rest(fs: Seq<FunctionModel>, k: int) -> Seq<char>
    decreases fs.len() - k,
{
    if !(0 <= k < fs.len()) {
        Seq::empty()
    } else {
        ","@ + enc_function(fs[k]) + enc_functions_rest(fs, k + 1)
    }
}

pub open spec fn enc_functions(fs: Seq<FunctionModel>) -> Seq<char> {
    if fs.len() == 0 {
        "[]"@
    } else {
        "["@ + enc_function(fs[0]) + enc_functions_rest(fs, 1) + "]"@
    }
}

pub open spec fn enc_entry(e: (Seq<char>, Seq<FunctionModel>)) -> Seq<char> {
    json_str(e.0) + ":"@ + enc_functions(e.1)
}

pub open spec fn enc_entries_rest(d: DocModel, k: int) -> Seq<char>
    decreases d.len() - k,
{
    if !(0 <= k < d.len()) {
        Seq::empty()
    } else {
        ","@ + enc_entry(d[k]) + enc_entries_rest(d, k + 1)
    }
}

/// The canonical interchange encoding of a documentation mapping.
pub open spec fn enc_doc(d: DocModel) -> Seq<char> {
    if d.len() == 0 {
        "{}"@
    } else {
        "{"@ + enc_entry(d[0]) + enc_entries_rest(d, 1) + "}"@
    }
}

fn needs_escape(c: char) -> (r: bool)
    ensures
        r == (c == '"' || c == '\\' || c == '\n' || c == '\r' || c == '\t'),
{
    c == '"' || c == '\\' || c == '\n' || c == '\r' || c == '\t'
}

/// Appends the escaped form of `s`.
fn append_escaped(out: &mut String, s: &str)
    ensures
        final(out)@ == old(out)@ + esc(s@),
{
    let n = s.unicode_len();
    let mut start: usize = 0;
    let mut i: usize = 0;
    while i < n
        invariant
            n == s@.len(),
            start <= i <= n,
            out@ + s@.subrange(start as int, i as int) == old(out)@ + esc(
                s@.subrange(0, i as int),
            ),
        decreases n - i,
    {
        let c = s.get_char(i);
        proof {
            reveal_strlit("\\\"");
            reveal_strlit("\\\\");
            reveal_strlit("\\n");
            reveal_strlit("\\r");
            reveal_strlit("\\t");
            assert(s@.subrange(0, i as int).push(c) =~= s@.subrange(0, i as int + 1));
            lemma_esc_snoc(s@.subrange(0, i as int), c);
            assert(s@.subrange(start as int, i as int + 1) =~= s@.subrange(
                start as int,
                i as int,
            ) + seq![c]);
        }
        if needs_escape(c) {
            out.append(s.substring_char(start, i));
            if c == '"' {
                out.append("\\\"");
            } else if c == '\\' {
                out.append("\\\\");
            } else if c == '\n' {
                out.append("\\n");
            } else if c == '\r' {
                out.append("\\r");
            } else {
                out.append("\\t");
            }
            proof {
                assert(out@ + s@.subrange(i as int + 1, i as int + 1) =~= old(out)@ + esc(
                    s@.subrange(0, i as int + 1),
                ));
            }
            start = i + 1;
        } else {
            proof {
                let pre = s@.subrange(0, i as int);
                let post = s@.subrange(0, i as int + 1);
                assert(esc(post) == esc(pre) + esc_char(c));
                assert(esc_char(c) =~= seq![c]);
                assert(out@ + s@.subrange(start as int, i as int + 1) =~= (out@ + s@.subrange(
                    start as int,
                    i as int,
                )) + seq![c]);
                assert((out@ + s@.subrange(start as int, i as int)) + seq![c] == (old(out)@ + esc(
                    pre,
                )) + seq![c]);
                assert((old(out)@ + esc(pre)) + seq![c] =~= old(out)@ + (esc(pre) + esc_char(c)));
                assert(out@ + s@.subrange(start as int, i as int + 1) == old(out)@ + esc(post));
            }
        }
        i += 1;
    }
    out.append(s.substring_char(start, n));
    proof {
        assert(s@.subrange(0, n as int) =~= s@);
        assert(out@ =~= old(out)@ + esc(s@));
    }
}

/// Appends `s` as a quoted, escaped JSON string.
fn append_json_string(out: &mut String, s: &str)
    ensures
        final(out)@ == old(out)@ + json_str(s@),
{
    proof {
        reveal_strlit("\"");
    }
    out.append("\"");
    append_escaped(out, s);
    out.append("\"");
    proof {
        assert(out@ =~= old(out)@ + json_str(s@));
    }
}

fn append_param(out: &mut String, p: &Param)
    ensures
        final(out)@ == old(out)@ + enc_param(p@),
{
    out.append("{\"name\":");
    append_json_string(out, p.name.as_str());
    out.append(",\"type\":");
    append_json_string(out, p.param_type.as_str());
    out.append(",\"description\":");
    append_json_string(out, p.description.as_str());
    out.append("}");
    proof {
        reveal(enc_param);
        assert(out@ =~= old(out)@ + enc_param(p@));
    }
}

fn append_params(out: &mut String, ps: &Vec<Param>)
    ensures
        final(out)@ == old(out)@ + enc_params(ps.deep_view()),
{
    let n = ps.len();
    if n == 0 {
        out.append("[]");
        return;
    }
    out.append("[");
    append_param(out, &ps[0]);
    let mut k: usize = 1;
    while k < n
        invariant
            n == ps@.len(),
            1 <= k <= n,
            out@ + enc_params_rest(ps.deep_view(), k as int) == old(out)@ + "["@ + enc_param(
                ps.deep_view()[0],
            ) + enc_params_rest(ps.deep_view(), 1),
        decreases n - k,
    {
        out.append(",");
        append_param(out, &ps[k]);
        proof {
            assert(ps@[k as int]@ == ps.deep_view()[k as int]);
            assert(out@ + enc_params_rest(ps.deep_view(), k as int + 1) =~= old(out)@ + "["@
                + enc_param(ps.deep_view()[0]) + enc_params_rest(ps.deep_view(), 1));
        }
        k += 1;
    }
    out.append("]");
    proof {
        assert(enc_params_rest(ps.deep_view(), n as int) =~= Seq::<char>::empty());
        assert(ps@[0]@ == ps.deep_view()[0]);
        assert(out@ =~= old(out)@ + enc_params(ps.deep_view()));
    }
}

fn append_return(out: &mut String, r: &Return)
    ensures
        final(out)@ == old(out)@ + enc_return(r@),
{
    out.append("{\"type\":");
    append_json_string(out, r.return_type.as_str());
    out.append(",\"description\":");
    append_json_string(out, r.description.as_str());
    out.append("}");
    proof {
        reveal(enc_return);
        assert(out@ =~= old(out)@ + enc_return(r@));
    }
}

fn append_returns(out: &mut String, rs: &Vec<Return>)
    ensures
        final(out)@ == old(out)@ + enc_returns(rs.deep_view()),
{
    let n = rs.len();
    if n == 0 {
        out.append("[]");
        return;
    }
    out.append("[");
    append_return(out, &rs[0]);
    let mut k: usize = 1;
    while k < n
        invariant
            n == rs@.len(),
            1 <= k <= n,
            out@ + enc_returns_rest(rs.deep_view(), k as int) == old(out)@ + "["@ + enc_return(
                rs.deep_view()[0],
            ) + enc_returns_rest(rs.deep_view(), 1),
        decreases n - k,
    {
        out.append(",");
        append_return(out, &rs[k]);
        proof {
            assert(rs@[k as int]@ == rs.deep_view()[k as int]);
            assert(out@ + enc_returns_rest(rs.deep_view(), k as int + 1) =~= old(out)@ + "["@
                + enc_return(rs.deep_view()[0]) + enc_returns_rest(rs.deep_view(), 1));
        }
        k += 1;
    }
    out.append("]");
    proof {
        assert(enc_returns_rest(rs.deep_view(), n as int) =~= Seq::<char>::empty());
        assert(rs@[0]@ == rs.deep_view()[0]);
        assert(out@ =~= old(out)@ + enc_returns(rs.deep_view()));
    }
}

fn append_function(out: &mut String, f: &Function)
    ensures
        final(out)@ == old(out)@ + enc_function(f@),
{
    out.append("{\"name\":");
    append_json_string(out, f.name.as_str());
    out.append(",\"description\":");
    append_json_string(out, f.description.as_str());
    out.append(",\"params\":");
    append_params(out, &f.params);
    out.append(",\"returns\":");
    append_returns(out, &f.returns);
    out.append("}");
    proof {
        reveal(enc_function);
        assert(out@ =~= old(out)@ + enc_function(f@));
    }
}

fn append_functions(out: &mut String, fs: &Vec<Function>)
    ensures
        final(out)@ == old(out)@ + enc_functions(fs.deep_view()),
{
    let n = fs.len();
    if n == 0 {
        out.append("[]");
        return;
    }
    out.append("[");
    append_function(out, &fs[0]);
    let mut k: usize = 1;
    while k < n
        invariant
            n == fs@.len(),
            1 <= k <= n,
            out@ + enc_functions_rest(fs.deep_view(), k as int) == old(out)@ + "["@ + enc_function(
                fs.deep_view()[0],
            ) + enc_functions_rest(fs.deep_view(), 1),
        decreases n - k,
    {
        out.append(",");
        append_function(out, &fs[k]);
        proof {
            assert(fs@[k as int]@ == fs.deep_view()[k as int]);
            assert(out@ + enc_functions_rest(fs.deep_view(), k as int + 1) =~= old(out)@ + "["@
                + enc_function(fs.deep_view()[0]) + enc_functions_rest(fs.deep_view(), 1));
        }
        k += 1;
    }
    out.append("]");
    proof {
        assert(enc_functions_rest(fs.deep_view(), n as int) =~= Seq::<char>::empty());
        assert(fs@[0]@ == fs.deep_view()[0]);
        assert(out@ =~= old(out)@ + enc_functions(fs.deep_view()));
    }
}

/// Serializes the documentation mapping to its canonical interchange
/// form.
pub fn encode_documentation(docs: &Documentation) -> (r: String)
    ensures
        r@ == enc_doc(docs@),
{
    let n = docs.len();
    let mut out = String::new();
    if n == 0 {
        out.append("{}");
        proof {
            assert(out@ =~= enc_doc(docs@));
        }
        return out;
    }
    out.append("{");
    append_json_string(&mut out, docs.category_at(0).as_str());
    out.append(":");
    append_functions(&mut out, docs.functions_at(0));
    let mut k: usize = 1;
    while k < n
        invariant
            n == docs@.len(),
            1 <= k <= n,
            out@ + enc_entries_rest(docs@, k as int) == "{"@ + enc_entry(docs@[0])
                + enc_entries_rest(docs@, 1),
        decreases n - k,
    {
        out.append(",");
        append_json_string(&mut out, docs.category_at(k).as_str());
        out.append(":");
        append_functions(&mut out, docs.functions_at(k));
        proof {
            assert(out@ + enc_entries_rest(docs@, k as int + 1) =~= "{"@ + enc_entry(docs@[0])
                + enc_entries_rest(docs@, 1));
        }
        k += 1;
    }
    out.append("}");
    proof {
        assert(enc_entries_rest(docs@, n as int) =~= Seq::<char>::empty());
        assert(out@ =~= enc_doc(docs@));
    }
    out
}

/// A character allowed after a backslash in a string escape.
pub open spec fn is_esc_code(c: char) -> bool {
    c == '"' || c == '\\' || c == 'n' || c == 'r' || c == 't'
}

/// The character an escape code stands for.
pub open spec fn unesc(c: char) -> char {
    if c == 'n' {
        '\n'
    } else if c == 'r' {
        '\r'
    } else if c == 't' {
        '\t'
    } else {
        c
    }
}

/// Parses a string body from `i` up to and over the closing quote,
/// yielding the unescaped content and the position after the quote.
pub open spec fn parse_str_body(s: Seq<char>, i: int) -> Option<(Seq<char>, int)>
    decreases s.len() - i,
{
    if !(0 <= i < s.len()) {
        None
    } else if s[i] == '"' {
        Some((Seq::empty(), i + 1))
    } else if s[i] == '\\' {
        if i + 1 < s.len() && is_esc_code(s[i + 1]) {
            match parse_str_body(s, i + 2) {
                Some(tj) => Some((seq![unesc(s[i + 1])] + tj.0, tj.1)),
                None => None,
            }
        } else {
            None
        }
    } else {
        match parse_str_body(s, i + 1) {
            Some(tj) => Some((seq![s[i]] + tj.0, tj.1)),
            None => None,
        }
    }
}

/// Parses a quoted string starting at `i`.
pub open spec fn parse_string_at(s: Seq<char>, i: int) -> Option<(Seq<char>, int)> {
    if 0 <= i < s.len() && s[i] == '"' {
        parse_str_body(s, i + 1)
    } else {
        None
    }
}

pub proof fn lemma_parse_str_body_advance(s: Seq<char>, i: int)
    ensures
        parse_str_body(s, i) matches Some(tj) ==> i < tj.1 <= s.len(),
    decreases s.len() - i,
{
    if 0 <= i < s.len() {
        lemma_parse_str_body_advance(s, i + 1);
        if i + 1 < s.len() {
            lemma_parse_str_body_advance(s, i + 2);
        }
    }
}

pub proof fn lemma_parse_string_advance(s: Seq<char>, i: int)
    ensures
        parse_string_at(s, i) matches Some(tj) ==> i < tj.1 <= s.len(),
{
    lemma_parse_str_body_advance(s, i + 1);
}

/// Consumes the literal `lit` at position `i`.
pub open spec fn expect(s: Seq<char>, i: int, lit: Seq<char>) -> Option<int> {
    if has_seq_at(s, i, lit) {
        Some(i + lit.len() as int)
    } else {
        None
    }
}

/// Parses one parameter object.
pub open spec fn parse_param_at(s: Seq<char>, i: int) -> Option<(ParamModel, int)> {
    match expect(s, i, "{\"name\":"@) {
        Some(j1) => match parse_string_at(s, j1) {
            Some(nm) => match expect(s, nm.1, ",\"type\":"@) {
                Some(j2) => match parse_string_at(s, j2) {
                    Some(ty) => match expect(s, ty.1, ",\"description\":"@) {
                        Some(j3) => match parse_string_at(s, j3) {
                            Some(de) => match expect(s, de.1, "}"@) {
                                Some(j4) => Some(
                                    (
                                        ParamModel {
                                            name: nm.0,
                                            param_type: ty.0,
                                            description: de.0,
                                        },
                                        j4,
                                    ),
                                ),
                                None => None,
                            },
                            None => None,
                        },
                        None => None,
                    },
                    None => None,
                },
                None => None,
            },
            None => None,
        },
        None => None,
    }
}

pub proof fn lemma_parse_param_advance(s: Seq<char>, i: int)
    ensures
        parse_param_at(s, i) matches Some(pj) ==> i < pj.1 <= s.len(),
{
    match expect(s, i, "{\"name\":"@) {
        Some(j1) => {
            lemma_parse_string_advance(s, j1);
            match parse_string_at(s, j1) {
                Some(nm) => {
                    match expect(s, nm.1, ",\"type\":"@) {
                        Some(j2) => {
                            lemma_parse_string_advance(s, j2);
                            match parse_string_at(s, j2) {
                                Some(ty) => {
                                    match expect(s, ty.1, ",\"description\":"@) {
                                        Some(j3) => {
                                            lemma_parse_string_advance(s, j3);
                                        },
                                        None => {},
                                    }
                                },
                                None => {},
                            }
                        },
                        None => {},
                    }
                },
                None => {},
            }
        },
        None => {},
    }
}

/// Parses the remaining parameters of a list, after the first.
pub open spec fn parse_params_more(s: Seq<char>, i: int, acc: Seq<ParamModel>) -> Option<
    (Seq<ParamModel>, int),
>
    decreases s.len() - i,
{
    if !(0 <= i < s.len()) {
        None
    } else if s[i] == ']' {
        Some((acc, i + 1))
    } else if s[i] == ',' {
        match parse_param_at(s, i + 1) {
            Some(pj) => {
                proof {
                    lemma_parse_param_advance(s, i + 1);
                }
                parse_params_more(s, pj.1, acc.push(pj.0))
            },
            None => None,
        }
    } else {
        None
    }
}

/// Parses a parameter list.
pub open spec fn parse_params_at(s: Seq<char>, i: int) -> Option<(Seq<ParamModel>, int)> {
    if 0 <= i < s.len() && s[i] == '[' {
        if i + 1 < s.len() && s[i + 1] == ']' {
            Some((Seq::empty(), i + 2))
        } else {
            match parse_param_at(s, i + 1) {
                Some(pj) => parse_params_more(s, pj.1, seq![pj.0]),
                None => None,
            }
        }
    } else {
        None
    }
}

pub proof fn lemma_parse_params_more_advance(s: Seq<char>, i: int, acc: Seq<ParamModel>)
    ensures
        parse_params_more(s, i, acc) matches Some(pj) ==> i < pj.1 <= s.len(),
    decreases s.len() - i,
{
    if 0 <= i < s.len() && s[i] != ']' && s[i] == ',' {
        match parse_param_at(s, i + 1) {
            Some(pj) => {
                lemma_parse_param_advance(s, i + 1);
                lemma_parse_params_more_advance(s, pj.1, acc.push(pj.0));
            },
            None => {},
        }
    }
}

pub proof fn lemma_parse_params_advance(s: Seq<char>, i: int)
    ensures
        parse_params_at(s, i) matches Some(pj) ==> i < pj.1 <= s.len(),
{
    if 0 <= i < s.len() && s[i] == '[' && !(i + 1 < s.len() && s[i + 1] == ']') {
        match parse_param_at(s, i + 1) {
            Some(pj) => {
                lemma_parse_param_advance(s, i + 1);
                lemma_parse_params_more_advance(s, pj.1, seq![pj.0]);
            },
            None => {},
        }
    }
}

/// Parses one return-value object.
pub open spec fn parse_return_at(s: Seq<char>, i: int) -> Option<(ReturnModel, int)> {
    match expect(s, i, "{\"type\":"@) {
        Some(j1) => match parse_string_at(s, j1) {
            Some(ty) => match expect(s, ty.1, ",\"description\":"@) {
                Some(j2) => match parse_string_at(s, j2) {
                    Some(de) => match expect(s, de.1, "}"@) {
                        Some(j3) => Some(
                            (ReturnModel { return_type: ty.0, description: de.0 }, j3),
                        ),
                        None => None,
                    },
                    None => None,
                },
                None => None,
            },
            None => None,
        },
        None => None,
    }
}

pub proof fn lemma_parse_return_advance(s: Seq<char>, i: int)
    ensures
        parse_return_at(s, i) matches Some(pj) ==> i < pj.1 <= s.len(),
{
    match expect(s, i, "{\"type\":"@) {
        Some(j1) => {
            lemma_parse_string_advance(s, j1);
            match parse_string_at(s, j1) {
                Some(ty) => {
                    match expect(s, ty.1, ",\"description\":"@) {
                        Some(j2) => {
                            lemma_parse_string_advance(s, j2);
                        },
                        None => {},
                    }
                },
                None => {},
            }
        },
        None => {},
    }
}

/// Parses the remaining return values of a list, after the first.
pub open spec fn parse_returns_more(s: Seq<char>, i: int, acc: Seq<ReturnModel>) -> Option<
    (Seq<ReturnModel>, int),
>
    decreases s.len() - i,
{
    if !(0 <= i < s.len()) {
        None
    } else if s[i] == ']' {
        Some((acc, i + 1))
    } else if s[i] == ',' {
        match parse_return_at(s, i + 1) {
            Some(pj) => {
                proof {
                    lemma_parse_return_advance(s, i + 1);
                }
                parse_returns_more(s, pj.1, acc.push(pj.0))
            },
            None => None,
        }
    } else {
        None
    }
}

/// Parses a return-value list.
pub open spec fn parse_returns_at(s: Seq<char>, i: int) -> Option<(Seq<ReturnModel>, int)> {
    if 0 <= i < s.len() && s[i] == '[' {
        if i + 1 < s.len() && s[i + 1] == ']' {
            Some((Seq::empty(), i + 2))
        } else {
            match parse_return_at(s, i + 1) {
                Some(pj) => parse_returns_more(s, pj.1, seq![pj.0]),
                None => None,
            }
        }
    } else {
        None
    }
}

pub proof fn lemma_parse_returns_more_advance(s: Seq<char>, i: int, acc: Seq<ReturnModel>)
    ensures
        parse_returns_more(s, i, acc) matches Some(pj) ==> i < pj.1 <= s.len(),
    decreases s.len() - i,
{
    if 0 <= i < s.len() && s[i] != ']' && s[i] == ',' {
        match parse_return_at(s, i + 1) {
            Some(pj) => {
                lemma_parse_return_advance(s, i + 1);
                lemma_parse_returns_more_advance(s, pj.1, acc.push(pj.0));
            },
            None => {},
        }
    }
}

pub proof fn lemma_parse_returns_advance(s: Seq<char>, i: int)
    ensures
        parse_returns_at(s, i) matches Some(pj) ==> i < pj.1 <= s.len(),
{
    if 0 <= i < s.len() && s[i] == '[' && !(i + 1 < s.len() && s[i + 1] == ']') {
        match parse_return_at(s, i + 1) {
            Some(pj) => {
                lemma_parse_return_advance(s, i + 1);
                lemma_parse_returns_more_advance(s, pj.1, seq![pj.0]);
            },
            None => {},
        }
    }
}

/// Parses one documented-function object.
pub open spec fn parse_function_at(s: Seq<char>, i: int) -> Option<(FunctionModel, int)> {
    match expect(s, i, "{\"name\":"@) {
        Some(j1) => match parse_string_at(s, j1) {
            Some(nm) => match expect(s, nm.1, ",\"description\":"@) {
                Some(j2) => match parse_string_at(s, j2) {
                    Some(de) => match expect(s, de.1, ",\"params\":"@) {
                        Some(j3) => match parse_params_at(s, j3) {
                            Some(ps) => match expect(s, ps.1, ",\"returns\":"@) {
                                Some(j4) => match parse_returns_at(s, j4) {
                                    Some(rs) => match expect(s, rs.1, "}"@) {
                                        Some(j5) => Some(
                                            (
                                                FunctionModel {
                                                    name: nm.0,
                                                    description: de.0,
                                                    params: ps.0,
                                                    returns: rs.0,
                                                },
                                                j5,
                                            ),
                                        ),
                                        None => None,
                                    },
                                    None => None,
                                },
                                None => None,
                            },
                            None => None,
                        },
                        None => None,
                    },
                    None => None,
                },
                None => None,
            },
            None => None,
        },
        None => None,
    }
}

pub proof fn lemma_parse_function_advance(s: Seq<char>, i: int)
    ensures
        parse_function_at(s, i) matches Some(pj) ==> i < pj.1 <= s.len(),
{
    match expect(s, i, "{\"name\":"@) {
        Some(j1) => {
            lemma_parse_string_advance(s, j1);
            match parse_string_at(s, j1) {
                Some(nm) => match expect(s, nm.1, ",\"description\":"@) {
                    Some(j2) => {
                        lemma_parse_string_advance(s, j2);
                        match parse_string_at(s, j2) {
                            Some(de) => match expect(s, de.1, ",\"params\":"@) {
                                Some(j3) => {
                                    lemma_parse_params_advance(s, j3);
                                    match parse_params_at(s, j3) {
                                        Some(ps) => match expect(s, ps.1, ",\"returns\":"@) {
                                            Some(j4) => {
                                                lemma_parse_returns_advance(s, j4);
                                            },
                                            None => {},
                                        },
                                        None => {},
                                    }
                                },
                                None => {},
                            },
                            None => {},
                        }
                    },
                    None => {},
                },
                None => {},
            }
        },
        None => {},
    }
}

/// Parses the remaining documented functions of a list, after the first.
pub open spec fn parse_functions_more(s: Seq<char>, i: int, acc: Seq<FunctionModel>) -> Option<
    (Seq<FunctionModel>, int),
>
    decreases s.len() - i,
{
    if !(0 <= i < s.len()) {
        None
    } else if s[i] == ']' {
        Some((acc, i + 1))
    } else if s[i] == ',' {
        match parse_function_at(s, i + 1) {
            Some(pj) => {
                proof {
                    lemma_parse_function_advance(s, i + 1);
                }
                parse_functions_more(s, pj.1, acc.push(pj.0))
            },
            None => None,
        }
    } else {
        None
    }
}

/// Parses a documented-function list.
pub open spec fn parse_functions_at(s: Seq<char>, i: int) -> Option<(Seq<FunctionModel>, int)> {
    if 0 <= i < s.len() && s[i] == '[' {
        if i + 1 < s.len() && s[i + 1] == ']' {
            Some((Seq::empty(), i + 2))
        } else {
            match parse_function_at(s, i + 1) {
                Some(pj) => parse_functions_more(s, pj.1, seq![pj.0]),
                None => None,
            }
        }
    } else {
        None
    }
}

pub proof fn lemma_parse_functions_more_advance(s: Seq<char>, i: int, acc: Seq<FunctionModel>)
    ensures
        parse_functions_more(s, i, acc) matches Some(pj) ==> i < pj.1 <= s.len(),
    decreases s.len() - i,
{
    if 0 <= i < s.len() && s[i] != ']' && s[i] == ',' {
        match parse_function_at(s, i + 1) {
            Some(pj) => {
                lemma_parse_function_advance(s, i + 1);
                lemma_parse_functions_more_advance(s, pj.1, acc.push(pj.0));
            },
            None => {},
        }
    }
}

pub proof fn lemma_parse_functions_advance(s: Seq<char>, i: int)
    ensures
        parse_functions_at(s, i) matches Some(pj) ==> i < pj.1 <= s.len(),
{
    if 0 <= i < s.len() && s[i] == '[' && !(i + 1 < s.len() && s[i + 1] == ']') {
        match parse_function_at(s, i + 1) {
            Some(pj) => {
                lemma_parse_function_advance(s, i + 1);
                lemma_parse_functions_more_advance(s, pj.1, seq![pj.0]);
            },
            None => {},
        }
    }
}

/// Parses one category entry: a category name and its function list.
pub open spec fn parse_entry_at(s: Seq<char>, i: int) -> Option<((Seq<char>, Seq<FunctionModel>), int)> {
    match parse_string_at(s, i) {
        Some(cj) => match expect(s, cj.1, ":"@) {
            Some(j) => match parse_functions_at(s, j) {
                Some(fj) => Some(((cj.0, fj.0), fj.1)),
                None => None,
            },
            None => None,
        },
        None => None,
    }
}

pub proof fn lemma_parse_entry_advance(s: Seq<char>, i: int)
    ensures
        parse_entry_at(s, i) matches Some(pj) ==> i < pj.1 <= s.len(),
{
    lemma_parse_string_advance(s, i);
    match parse_string_at(s, i) {
        Some(cj) => match expect(s, cj.1, ":"@) {
            Some(j) => {
                lemma_parse_functions_advance(s, j);
            },
            None => {},
        },
        None => {},
    }
}

/// Parses the remaining category entries, after the first.
pub open spec fn parse_entries_more(s: Seq<char>, i: int, acc: DocModel) -> Option<(DocModel, int)>
    decreases s.len() - i,
{
    if !(0 <= i < s.len()) {
        None
    } else if s[i] == '}' {
        Some((acc, i + 1))
    } else if s[i] == ',' {
        match parse_entry_at(s, i + 1) {
            Some(pj) => {
                proof {
                    lemma_parse_entry_advance(s, i + 1);
                }
                parse_entries_more(s, pj.1, acc.push(pj.0))
            },
            None => None,
        }
    } else {
        None
    }
}

/// Parses a whole documentation object starting at `i`.
pub open spec fn parse_doc_at(s: Seq<char>, i: int) -> Option<(DocModel, int)> {
    if 0 <= i < s.len() && s[i] == '{' {
        if i + 1 < s.len() && s[i + 1] == '}' {
            Some((Seq::empty(), i + 2))
        } else {
            match parse_entry_at(s, i + 1) {
                Some(pj) => parse_entries_more(s, pj.1, seq![pj.0]),
                None => None,
            }
        }
    } else {
        None
    }
}

/// Parses an interchange text into a documentation mapping; apart from
/// whitespace around it, the whole text must be one documentation object
/// in the canonical form the encoder writes.
pub open spec fn parse_documentation_spec(s: Seq<char>) -> Option<DocModel> {
    let t = trim_spec(s);
    match parse_doc_at(t, 0) {
        Some(dj) => if dj.1 == t.len() {
            Some(dj.0)
        } else {
            None
        },
        None => None,
    }
}

fn p_expect(s: &str, i: usize, lit: &str) -> (r: Option<usize>)
    requires
        i <= s@.len(),
    ensures
        match r {
            Some(j) => expect(s@, i as int, lit@) == Some(j as int) && i <= j <= s@.len(),
            None => expect(s@, i as int, lit@) is None,
        },
{
    let sn = s.unicode_len();
    if str_has_at(s, i, lit) {
        Some(i + lit.unicode_len())
    } else {
        None
    }
}

fn p_str_body(s: &str, i: usize) -> (r: Option<(String, usize)>)
    requires
        i <= s@.len(),
    ensures
        match r {
            Some(v) => parse_str_body(s@, i as int) == Some((v.0@, v.1 as int)) && i < v.1
                <= s@.len(),
            None => parse_str_body(s@, i as int) is None,
        },
{
    let n = s.unicode_len();
    let mut acc = String::new();
    let mut start: usize = i;
    let mut cur: usize = i;
    loop
        invariant
            n == s@.len(),
            i <= start <= cur <= n,
            match parse_str_body(s@, cur as int) {
                Some(tj) => parse_str_body(s@, i as int) == Some(
                    (acc@ + s@.subrange(start as int, cur as int) + tj.0, tj.1),
                ),
                None => parse_str_body(s@, i as int) is None,
            },
        decreases n - cur,
    {
        if cur >= n {
            return None;
        }
        let c = s.get_char(cur);
        if c == '"' {
            let ghost acc0 = acc@;
            acc.append(s.substring_char(start, cur));
            proof {
                assert(acc@ + s@.subrange(cur as int, cur as int) + Seq::<char>::empty() =~= acc0
                    + s@.subrange(start as int, cur as int) + Seq::<char>::empty());
                assert(acc0 + s@.subrange(start as int, cur as int) + Seq::<char>::empty()
                    =~= acc@);
            }
            return Some((acc, cur + 1));
        } else if c == '\\' {
            if cur + 1 < n {
                let e = s.get_char(cur + 1);
                if e == '"' || e == '\\' || e == 'n' || e == 'r' || e == 't' {
                    let ghost acc0 = acc@;
                    acc.append(s.substring_char(start, cur));
                    if e == '"' {
                        acc.append("\"");
                    } else if e == '\\' {
                        acc.append("\\");
                    } else if e == 'n' {
                        acc.append("\n");
                    } else if e == 'r' {
                        acc.append("\r");
                    } else {
                        acc.append("\t");
                    }
                    proof {
                        reveal_strlit("\"");
                        reveal_strlit("\\");
                        reveal_strlit("\n");
                        reveal_strlit("\r");
                        reveal_strlit("\t");
                        assert(acc@ =~= acc0 + s@.subrange(start as int, cur as int) + seq![
                            unesc(e),
                        ]);
                        match parse_str_body(s@, cur as int + 2) {
                            Some(tj) => {
                                assert(parse_str_body(s@, cur as int) == Some(
                                    (seq![unesc(e)] + tj.0, tj.1),
                                ));
                                assert(acc0 + s@.subrange(start as int, cur as int) + (seq![
                                    unesc(e),
                                ] + tj.0) =~= acc@ + s@.subrange(
                                    cur as int + 2,
                                    cur as int + 2,
                                ) + tj.0);
                            },
                            None => {},
                        }
                    }
                    start = cur + 2;
                    cur = cur + 2;
                } else {
                    return None;
                }
            } else {
                return None;
            }
        } else {
            proof {
                assert(s@.subrange(start as int, cur as int + 1) =~= s@.subrange(
                    start as int,
                    cur as int,
                ) + seq![c]);
                match parse_str_body(s@, cur as int + 1) {
                    Some(tj) => {
                        assert(parse_str_body(s@, cur as int) == Some((seq![c] + tj.0, tj.1)));
                        assert(acc@ + s@.subrange(start as int, cur as int) + (seq![c] + tj.0)
                            =~= acc@ + s@.subrange(start as int, cur as int + 1) + tj.0);
                    },
                    None => {},
                }
            }
            cur = cur + 1;
        }
    }
}

fn p_string(s: &str, i: usize) -> (r: Option<(String, usize)>)
    requires
        i <= s@.len(),
    ensures
        match r {
            Some(v) => parse_string_at(s@, i as int) == Some((v.0@, v.1 as int)) && i < v.1
                <= s@.len(),
            None => parse_string_at(s@, i as int) is None,
        },
{
    let n = s.unicode_len();
    if i < n && s.get_char(i) == '"' {
        p_str_body(s, i + 1)
    } else {
        None
    }
}

fn p_param_at(s: &str, i: usize) -> (r: Option<(Param, usize)>)
    requires
        i <= s@.len(),
    ensures
        match r {
            Some(v) => parse_param_at(s@, i as int) == Some((v.0@, v.1 as int)) && i < v.1
                <= s@.len(),
            None => parse_param_at(s@, i as int) is None,
        },
{
    let j1 = match p_expect(s, i, "{\"name\":") {
        Some(j) => j,
        None => {
            return None;
        },
    };
    let (name, k1) = match p_string(s, j1) {
        Some(v) => v,
        None => {
            return None;
        },
    };
    let j2 = match p_expect(s, k1, ",\"type\":") {
        Some(j) => j,
        None => {
            return None;
        },
    };
    let (param_type, k2) = match p_string(s, j2) {
        Some(v) => v,
        None => {
            return None;
        },
    };
    let j3 = match p_expect(s, k2, ",\"description\":") {
        Some(j) => j,
        None => {
            return None;
        },
    };
    let (description, k3) = match p_string(s, j3) {
        Some(v) => v,
        None => {
            return None;
        },
    };
    let j4 = match p_expect(s, k3, "}") {
        Some(j) => j,
        None => {
            return None;
        },
    };
    Some((Param { name, param_type, description }, j4))
}

fn p_params_at(s: &str, i: usize) -> (r: Option<(Vec<Param>, usize)>)
    requires
        i <= s@.len(),
    ensures
        match r {
            Some(v) => parse_params_at(s@, i as int) == Some((v.0.deep_view(), v.1 as int)) && i
                < v.1 <= s@.len(),
            None => parse_params_at(s@, i as int) is None,
        },
{
    let n = s.unicode_len();
    if !(i < n && s.get_char(i) == '[') {
        return None;
    }
    if i + 1 < n && s.get_char(i + 1) == ']' {
        let empty: Vec<Param> = Vec::new();
        proof {
            assert(empty.deep_view() =~= Seq::<ParamModel>::empty());
        }
        return Some((empty, i + 2));
    }
    let (first, fj) = match p_param_at(s, i + 1) {
        Some(v) => v,
        None => {
            return None;
        },
    };
    let ghost fm = first@;
    let mut acc: Vec<Param> = Vec::new();
    acc.push(first);
    let mut cur: usize = fj;
    proof {
        assert(acc.deep_view() =~= seq![fm]);
    }
    loop
        invariant
            n == s@.len(),
            i < cur <= n,
            parse_params_at(s@, i as int) == parse_params_more(s@, cur as int, acc.deep_view()),
        decreases n - cur,
    {
        if cur >= n {
            return None;
        }
        let c = s.get_char(cur);
        if c == ']' {
            return Some((acc, cur + 1));
        } else if c == ',' {
            match p_param_at(s, cur + 1) {
                Some(v) => {
                    let (p, j) = v;
                    let ghost pm = p@;
                    let ghost acc0 = acc.deep_view();
                    acc.push(p);
                    proof {
                        assert(acc.deep_view() =~= acc0.push(pm));
                    }
                    cur = j;
                },
                None => {
                    return None;
                },
            }
        } else {
            return None;
        }
    }
}

fn p_return_at(s: &str, i: usize) -> (r: Option<(Return, usize)>)
    requires
        i <= s@.len(),
    ensures
        match r {
            Some(v) => parse_return_at(s@, i as int) == Some((v.0@, v.1 as int)) && i < v.1
                <= s@.len(),
            None => parse_return_at(s@, i as int) is None,
        },
{
    let j1 = match p_expect(s, i, "{\"type\":") {
        Some(j) => j,
        None => {
            return None;
        },
    };
    let (return_type, k1) = match p_string(s, j1) {
        Some(v) => v,
        None => {
            return None;
        },
    };
    let j2 = match p_expect(s, k1, ",\"description\":") {
        Some(j) => j,
        None => {
            return None;
        },
    };
    let (description, k2) = match p_string(s, j2) {
        Some(v) => v,
        None => {
            return None;
        },
    };
    let j3 = match p_expect(s, k2, "}") {
        Some(j) => j,
        None => {
            return None;
        },
    };
    Some((Return { return_type, description }, j3))
}

fn p_returns_at(s: &str, i: usize) -> (r: Option<(Vec<Return>, usize)>)
    requires
        i <= s@.len(),
    ensures
        match r {
            Some(v) => parse_returns_at(s@, i as int) == Some((v.0.deep_view(), v.1 as int)) && i
                < v.1 <= s@.len(),
            None => parse_returns_at(s@, i as int) is None,
        },
{
    let n = s.unicode_len();
    if !(i < n && s.get_char(i) == '[') {
        return None;
    }
    if i + 1 < n && s.get_char(i + 1) == ']' {
        let empty: Vec<Return> = Vec::new();
        proof {
            assert(empty.deep_view() =~= Seq::<ReturnModel>::empty());
        }
        return Some((empty, i + 2));
    }
    let (first, fj) = match p_return_at(s, i + 1) {
        Some(v) => v,
        None => {
            return None;
        },
    };
    let ghost fm = first@;
    let mut acc: Vec<Return> = Vec::new();
    acc.push(first);
    let mut cur: usize = fj;
    proof {
        assert(acc.deep_view() =~= seq![fm]);
    }
    loop
        invariant
            n == s@.len(),
            i < cur <= n,
            parse_returns_at(s@, i as int) == parse_returns_more(s@, cur as int, acc.deep_view()),
        decreases n - cur,
    {
        if cur >= n {
            return None;
        }
        let c = s.get_char(cur);
        if c == ']' {
            return Some((acc, cur + 1));
        } else if c == ',' {
            match p_return_at(s, cur + 1) {
                Some(v) => {
                    let (p, j) = v;
                    let ghost pm = p@;
                    let ghost acc0 = acc.deep_view();
                    acc.push(p);
                    proof {
                        assert(acc.deep_view() =~= acc0.push(pm));
                    }
                    cur = j;
                },
                None => {
                    return None;
                },
            }
        } else {
            return None;
        }
    }
}

fn p_function_at(s: &str, i: usize) -> (r: Option<(Function, usize)>)
    requires
        i <= s@.len(),
    ensures
        match r {
            Some(v) => parse_function_at(s@, i as int) == Some((v.0@, v.1 as int)) && i < v.1
                <= s@.len(),
            None => parse_function_at(s@, i as int) is None,
        },
{
    let j1 = match p_expect(s, i, "{\"name\":") {
        Some(j) => j,
        None => {
            return None;
        },
    };
    let (name, k1) = match p_string(s, j1) {
        Some(v) => v,
        None => {
            return None;
        },
    };
    let j2 = match p_expect(s, k1, ",\"description\":") {
        Some(j) => j,
        None => {
            return None;
        },
    };
    let (description, k2) = match p_string(s, j2) {
        Some(v) => v,
        None => {
            return None;
        },
    };
    let j3 = match p_expect(s, k2, ",\"params\":") {
        Some(j) => j,
        None => {
            return None;
        },
    };
    let (params, k3) = match p_params_at(s, j3) {
        Some(v) => v,
        None => {
            return None;
        },
    };
    let j4 = match p_expect(s, k3, ",\"returns\":") {
        Some(j) => j,
        None => {
            return None;
        },
    };
    let (rets, k4) = match p_returns_at(s, j4) {
        Some(v) => v,
        None => {
            return None;
        },
    };
    let j5 = match p_expect(s, k4, "}") {
        Some(j) => j,
        None => {
            return None;
        },
    };
    Some((Function { name, description, params, returns: rets }, j5))
}

fn p_functions_at(s: &str, i: usize) -> (r: Option<(Vec<Function>, usize)>)
    requires
        i <= s@.len(),
    ensures
        match r {
            Some(v) => parse_functions_at(s@, i as int) == Some((v.0.deep_view(), v.1 as int))
                && i < v.1 <= s@.len(),
            None => parse_functions_at(s@, i as int) is None,
        },
{
    let n = s.unicode_len();
    if !(i < n && s.get_char(i) == '[') {
        return None;
    }
    if i + 1 < n && s.get_char(i + 1) == ']' {
        let empty: Vec<Function> = Vec::new();
        proof {
            assert(empty.deep_view() =~= Seq::<FunctionModel>::empty());
        }
        return Some((empty, i + 2));
    }
    let (first, fj) = match p_function_at(s, i + 1) {
        Some(v) => v,
        None => {
            return None;
        },
    };
    let ghost fm = first@;
    let mut acc: Vec<Function> = Vec::new();
    acc.push(first);
    let mut cur: usize = fj;
    proof {
        assert(acc.deep_view() =~= seq![fm]);
    }
    loop
        invariant
            n == s@.len(),
            i < cur <= n,
            parse_functions_at(s@, i as int) == parse_functions_more(
                s@,
                cur as int,
                acc.deep_view(),
            ),
        decreases n - cur,
    {
        if cur >= n {
            return None;
        }
        let c = s.get_char(cur);
        if c == ']' {
            return Some((acc, cur + 1));
        } else if c == ',' {
            match p_function_at(s, cur + 1) {
                Some(v) => {
                    let (p, j) = v;
                    let ghost pm = p@;
                    let ghost acc0 = acc.deep_view();
                    acc.push(p);
                    proof {
                        assert(acc.deep_view() =~= acc0.push(pm));
                    }
                    cur = j;
                },
                None => {
                    return None;
                },
            }
        } else {
            return None;
        }
    }
}

fn p_entry_at(s: &str, i: usize) -> (r: Option<((String, Vec<Function>), usize)>)
    requires
        i <= s@.len(),
    ensures
        match r {
            Some(v) => parse_entry_at(s@, i as int) == Some(
                ((v.0.0@, v.0.1.deep_view()), v.1 as int),
            ) && i < v.1 <= s@.len(),
            None => parse_entry_at(s@, i as int) is None,
        },
{
    let (cat, k1) = match p_string(s, i) {
        Some(v) => v,
        None => {
            return None;
        },
    };
    let j = match p_expect(s, k1, ":") {
        Some(j) => j,
        None => {
            return None;
        },
    };
    let (funcs, k2) = match p_functions_at(s, j) {
        Some(v) => v,
        None => {
            return None;
        },
    };
    Some(((cat, funcs), k2))
}

/// Parses an interchange text into a documentation mapping. Apart from
/// whitespace around it, the text must be one documentation object in the
/// canonical form the encoder writes (no whitespace between tokens);
/// otherwise `None` is returned.
pub fn parse_documentation(raw: &str) -> (r: Option<Documentation>)
    ensures
        match r {
            Some(d) => parse_documentation_spec(raw@) == Some(d@),
            None => parse_documentation_spec(raw@) is None,
        },
{
    let text = str_trim(raw);
    let n = text.unicode_len();
    if !(0 < n && text.get_char(0) == '{') {
        return None;
    }
    if 1 < n && text.get_char(1) == '}' {
        if n == 2 {
            let d = Documentation::new();
            return Some(d);
        } else {
            return None;
        }
    }
    let (first, fj) = match p_entry_at(text, 1) {
        Some(v) => v,
        None => {
            return None;
        },
    };
    let ghost fm = (first.0@, first.1.deep_view());
    let mut d = Documentation { entries: Vec::new() };
    d.entries.push(first);
    let mut cur: usize = fj;
    proof {
        assert(d@ =~= seq![fm]);
    }
    loop
        invariant
            text@ == trim_spec(raw@),
            n == text@.len(),
            0 < cur <= n,
            parse_doc_at(text@, 0) == parse_entries_more(text@, cur as int, d@),
        decreases n - cur,
    {
        if cur >= n {
            return None;
        }
        let c = text.get_char(cur);
        if c == '}' {
            if cur + 1 == n {
                return Some(d);
            } else {
                proof {
                    assert(parse_doc_at(text@, 0) == Some((d@, cur as int + 1)));
                }
                return None;
            }
        } else if c == ',' {
            match p_entry_at(text, cur + 1) {
                Some(v) => {
                    let (e, j) = v;
                    let ghost em = (e.0@, e.1.deep_view());
                    let ghost d0 = d@;
                    d.entries.push(e);
                    proof {
                        assert(d@ =~= d0.push(em));
                    }
                    cur = j;
                },
                None => {
                    return None;
                },
            }
        } else {
            return None;
        }
    }
}

/// A sequence found at a position splits into its two halves.
pub proof fn lemma_split(s: Seq<char>, i: int, x: Seq<char>, y: Seq<char>)
    requires
        has_seq_at(s, i, x + y),
    ensures
        has_seq_at(s, i, x),
        has_seq_at(s, i + x.len(), y),
{
    assert forall|k: int| 0 <= k < x.len() implies s[i + k] == x[k] by {
        assert(s[i + k] == (x + y)[k]);
    }
    assert(has_seq_at(s, i + x.len(), y)) by {
        assert forall|k: int| 0 <= k < y.len() implies s[i + x.len() + k] == y[k] by {
            assert(s[i + (x.len() + k)] == (x + y)[x.len() + k]);
        }
    }
}

proof fn lemma_rt_str_body(v: Seq<char>, s: Seq<char>, i: int)
    requires
        0 <= i,
        has_seq_at(s, i, esc(v) + seq!['"']),
    ensures
        parse_str_body(s, i) == Some((v, i + esc(v).len() + 1)),
    decreases v.len(),
{
    if v.len() == 0 {
        assert(esc(v) + seq!['"'] =~= seq!['"']);
        assert(s[i + 0] == (esc(v) + seq!['"'])[0]);
        assert(s[i] == '"');
        assert(v =~= Seq::<char>::empty());
        assert(parse_str_body(s, i) == Some((v, i + 1)));
    } else {
        let c = v[0];
        let v1 = v.drop_first();
        assert(esc(v) == esc_char(c) + esc(v1));
        assert(esc(v) + seq!['"'] =~= esc_char(c) + (esc(v1) + seq!['"']));
        lemma_split(s, i, esc_char(c), esc(v1) + seq!['"']);
        assert(seq![c] + v1 =~= v);
        if c == '"' || c == '\\' || c == '\n' || c == '\r' || c == '\t' {
            assert(s[i + 0] == esc_char(c)[0]);
            assert(s[i + 1] == esc_char(c)[1]);
            assert(s[i] == '\\');
            lemma_rt_str_body(v1, s, i + 2);
            assert(is_esc_code(s[i + 1]));
            assert(unesc(s[i + 1]) == c);
            assert(parse_str_body(s, i) == Some((v, i + esc(v).len() + 1)));
        } else {
            assert(s[i + 0] == esc_char(c)[0]);
            assert(s[i] == c);
            lemma_rt_str_body(v1, s, i + 1);
            assert(parse_str_body(s, i) == Some((v, i + esc(v).len() + 1)));
        }
    }
}

proof fn lemma_rt_string(v: Seq<char>, s: Seq<char>, i: int)
    requires
        0 <= i,
        has_seq_at(s, i, json_str(v)),
    ensures
        parse_string_at(s, i) == Some((v, i + json_str(v).len())),
{
    assert(json_str(v) =~= seq!['"'] + (esc(v) + seq!['"']));
    lemma_split(s, i, seq!['"'], esc(v) + seq!['"']);
    assert(s[i + 0] == seq!['"'][0]);
    lemma_rt_str_body(v, s, i + 1);
}

proof fn lemma_rt_param(p: ParamModel, s: Seq<char>, i: int)
    requires
        0 <= i,
        has_seq_at(s, i, enc_param(p)),
    ensures
        parse_param_at(s, i) == Some((p, i + enc_param(p).len())),
{
    reveal(enc_param);
    let l1 = "{\"name\":"@;
    let l2 = ",\"type\":"@;
    let l3 = ",\"description\":"@;
    let l4 = "}"@;
    let j1 = json_str(p.name);
    let j2 = json_str(p.param_type);
    let j3 = json_str(p.description);
    assert(enc_param(p) =~= l1 + (j1 + (l2 + (j2 + (l3 + (j3 + l4))))));
    lemma_split(s, i, l1, j1 + (l2 + (j2 + (l3 + (j3 + l4)))));
    let p1 = i + l1.len();
    lemma_split(s, p1, j1, l2 + (j2 + (l3 + (j3 + l4))));
    let p2 = p1 + j1.len();
    lemma_split(s, p2, l2, j2 + (l3 + (j3 + l4)));
    let p3 = p2 + l2.len();
    lemma_split(s, p3, j2, l3 + (j3 + l4));
    let p4 = p3 + j2.len();
    lemma_split(s, p4, l3, j3 + l4);
    let p5 = p4 + l3.len();
    lemma_split(s, p5, j3, l4);
    let p6 = p5 + j3.len();
    lemma_rt_string(p.name, s, p1);
    lemma_rt_string(p.param_type, s, p3);
    lemma_rt_string(p.description, s, p5);
    assert(expect(s, i, l1) == Some(p1));
    assert(expect(s, p2, l2) == Some(p3));
    assert(expect(s, p4, l3) == Some(p5));
    assert(expect(s, p6, l4) == Some(p6 + l4.len()));
    assert(parse_param_at(s, i) == Some((p, i + enc_param(p).len())));
}

proof fn lemma_rt_params_more(ps: Seq<ParamModel>, k: int, s: Seq<char>, i: int)
    requires
        0 <= i,
        1 <= k <= ps.len(),
        has_seq_at(s, i, enc_params_rest(ps, k) + seq![']']),
    ensures
        parse_params_more(s, i, ps.take(k)) == Some((ps, i + enc_params_rest(ps, k).len() + 1)),
    decreases ps.len() - k,
{
    reveal_strlit(",");
    if k == ps.len() {
        assert(enc_params_rest(ps, k) + seq![']'] =~= seq![']']);
        assert(s[i + 0] == (enc_params_rest(ps, k) + seq![']'])[0]);
        assert(s[i] == ']');
        assert(ps.take(k) =~= ps);
        assert(parse_params_more(s, i, ps.take(k)) == Some((ps, i + 1)));
    } else {
        assert(enc_params_rest(ps, k) == ","@ + enc_param(ps[k]) + enc_params_rest(ps, k + 1));
        assert(enc_params_rest(ps, k) + seq![']'] =~= ","@ + (enc_param(ps[k])
            + (enc_params_rest(ps, k + 1) + seq![']'])));
        lemma_split(s, i, ","@, enc_param(ps[k]) + (enc_params_rest(ps, k + 1) + seq![']']));
        assert(s[i + 0] == ","@[0]);
        assert(s[i] == ',');
        let p1 = i + ","@.len();
        lemma_split(s, p1, enc_param(ps[k]), enc_params_rest(ps, k + 1) + seq![']']);
        lemma_rt_param(ps[k], s, p1);
        let p2 = p1 + enc_param(ps[k]).len();
        assert(ps.take(k).push(ps[k]) =~= ps.take(k + 1));
        lemma_rt_params_more(ps, k + 1, s, p2);
        assert(parse_params_more(s, i, ps.take(k)) == Some(
            (ps, i + enc_params_rest(ps, k).len() + 1),
        ));
    }
}

proof fn lemma_rt_params(ps: Seq<ParamModel>, s: Seq<char>, i: int)
    requires
        0 <= i,
        has_seq_at(s, i, enc_params(ps)),
    ensures
        parse_params_at(s, i) == Some((ps, i + enc_params(ps).len())),
{
    reveal_strlit("[]");
    reveal_strlit("[");
    reveal_strlit("]");
    if ps.len() == 0 {
        assert(s[i + 0] == "[]"@[0]);
        assert(s[i + 1] == "[]"@[1]);
        assert(s[i] == '[' && s[i + 1] == ']');
        assert(ps =~= Seq::<ParamModel>::empty());
        assert(parse_params_at(s, i) == Some((ps, i + 2)));
    } else {
        assert(enc_params(ps) =~= "["@ + (enc_param(ps[0]) + (enc_params_rest(ps, 1)
            + seq![']'])));
        lemma_split(s, i, "["@, enc_param(ps[0]) + (enc_params_rest(ps, 1) + seq![']']));
        assert(s[i + 0] == "["@[0]);
        assert(s[i] == '[');
        let p1 = i + 1;
        lemma_split(s, p1, enc_param(ps[0]), enc_params_rest(ps, 1) + seq![']']);
        assert(enc_param(ps[0]).len() > 0 && enc_param(ps[0])[0] == '{') by {
            reveal(enc_param);
            reveal_strlit("{\"name\":");
            assert(enc_param(ps[0])[0] == "{\"name\":"@[0]);
        }
        assert(s[p1 + 0] == enc_param(ps[0])[0]);
        assert(s[i + 1] == '{');
        lemma_rt_param(ps[0], s, p1);
        let p2 = p1 + enc_param(ps[0]).len();
        assert(seq![ps[0]] =~= ps.take(1));
        lemma_rt_params_more(ps, 1, s, p2);
        assert(parse_params_at(s, i) == Some((ps, i + enc_params(ps).len())));
    }
}

proof fn lemma_rt_return(r: ReturnModel, s: Seq<char>, i: int)
    requires
        0 <= i,
        has_seq_at(s, i, enc_return(r)),
    ensures
        parse_return_at(s, i) == Some((r, i + enc_return(r).len())),
{
    reveal(enc_return);
    let l1 = "{\"type\":"@;
    let l2 = ",\"description\":"@;
    let l3 = "}"@;
    let j1 = json_str(r.return_type);
    let j2 = json_str(r.description);
    assert(enc_return(r) =~= l1 + (j1 + (l2 + (j2 + l3))));
    lemma_split(s, i, l1, j1 + (l2 + (j2 + l3)));
    let p1 = i + l1.len();
    lemma_split(s, p1, j1, l2 + (j2 + l3));
    let p2 = p1 + j1.len();
    lemma_split(s, p2, l2, j2 + l3);
    let p3 = p2 + l2.len();
    lemma_split(s, p3, j2, l3);
    let p4 = p3 + j2.len();
    lemma_rt_string(r.return_type, s, p1);
    lemma_rt_string(r.description, s, p3);
    assert(expect(s, i, l1) == Some(p1));
    assert(expect(s, p2, l2) == Some(p3));
    assert(expect(s, p4, l3) == Some(p4 + l3.len()));
    assert(parse_return_at(s, i) == Some((r, i + enc_return(r).len())));
}

proof fn lemma_rt_returns_more(rs: Seq<ReturnModel>, k: int, s: Seq<char>, i: int)
    requires
        0 <= i,
        1 <= k <= rs.len(),
        has_seq_at(s, i, enc_returns_rest(rs, k) + seq![']']),
    ensures
        parse_returns_more(s, i, rs.take(k)) == Some((rs, i + enc_returns_rest(rs, k).len() + 1)),
    decreases rs.len() - k,
{
    reveal_strlit(",");
    if k == rs.len() {
        assert(enc_returns_rest(rs, k) + seq![']'] =~= seq![']']);
        assert(s[i + 0] == (enc_returns_rest(rs, k) + seq![']'])[0]);
        assert(s[i] == ']');
        assert(rs.take(k) =~= rs);
        assert(parse_returns_more(s, i, rs.take(k)) == Some((rs, i + 1)));
    } else {
        assert(enc_returns_rest(rs, k) == ","@ + enc_return(rs[k]) + enc_returns_rest(rs, k + 1));
        assert(enc_returns_rest(rs, k) + seq![']'] =~= ","@ + (enc_return(rs[k])
            + (enc_returns_rest(rs, k + 1) + seq![']'])));
        lemma_split(s, i, ","@, enc_return(rs[k]) + (enc_returns_rest(rs, k + 1) + seq![']']));
        assert(s[i + 0] == ","@[0]);
        assert(s[i] == ',');
        let p1 = i + ","@.len();
        lemma_split(s, p1, enc_return(rs[k]), enc_returns_rest(rs, k + 1) + seq![']']);
        lemma_rt_return(rs[k], s, p1);
        let p2 = p1 + enc_return(rs[k]).len();
        assert(rs.take(k).push(rs[k]) =~= rs.take(k + 1));
        lemma_rt_returns_more(rs, k + 1, s, p2);
        assert(parse_returns_more(s, i, rs.take(k)) == Some(
            (rs, i + enc_returns_rest(rs, k).len() + 1),
        ));
    }
}

proof fn lemma_rt_returns(rs: Seq<ReturnModel>, s: Seq<char>, i: int)
    requires
        0 <= i,
        has_seq_at(s, i, enc_returns(rs)),
    ensures
        parse_returns_at(s, i) == Some((rs, i + enc_returns(rs).len())),
{
    reveal_strlit("[]");
    reveal_strlit("[");
    reveal_strlit("]");
    if rs.len() == 0 {
        assert(s[i + 0] == "[]"@[0]);
        assert(s[i + 1] == "[]"@[1]);
        assert(s[i] == '[' && s[i + 1] == ']');
        assert(rs =~= Seq::<ReturnModel>::empty());
        assert(parse_returns_at(s, i) == Some((rs, i + 2)));
    } else {
        assert(enc_returns(rs) =~= "["@ + (enc_return(rs[0]) + (enc_returns_rest(rs, 1)
            + seq![']'])));
        lemma_split(s, i, "["@, enc_return(rs[0]) + (enc_returns_rest(rs, 1) + seq![']']));
        assert(s[i + 0] == "["@[0]);
        assert(s[i] == '[');
        let p1 = i + 1;
        lemma_split(s, p1, enc_return(rs[0]), enc_returns_rest(rs, 1) + seq![']']);
        assert(enc_return(rs[0]).len() > 0 && enc_return(rs[0])[0] == '{') by {
            reveal(enc_return);
            reveal_strlit("{\"type\":");
            assert(enc_return(rs[0])[0] == "{\"type\":"@[0]);
        }
        assert(s[p1 + 0] == enc_return(rs[0])[0]);
        assert(s[i + 1] == '{');
        lemma_rt_return(rs[0], s, p1);
        let p2 = p1 + enc_return(rs[0]).len();
        assert(seq![rs[0]] =~= rs.take(1));
        lemma_rt_returns_more(rs, 1, s, p2);
        assert(parse_returns_at(s, i) == Some((rs, i + enc_returns(rs).len())));
    }
}

proof fn lemma_rt_function(f: FunctionModel, s: Seq<char>, i: int)
    requires
        0 <= i,
        has_seq_at(s, i, enc_function(f)),
    ensures
        parse_function_at(s, i) == Some((f, i + enc_function(f).len())),
{
    reveal(enc_function);
    let l1 = "{\"name\":"@;
    let l2 = ",\"description\":"@;
    let l3 = ",\"params\":"@;
    let l4 = ",\"returns\":"@;
    let l5 = "}"@;
    let j1 = json_str(f.name);
    let j2 = json_str(f.description);
    let e3 = enc_params(f.params);
    let e4 = enc_returns(f.returns);
    assert(enc_function(f) =~= l1 + (j1 + (l2 + (j2 + (l3 + (e3 + (l4 + (e4 + l5))))))));
    lemma_split(s, i, l1, j1 + (l2 + (j2 + (l3 + (e3 + (l4 + (e4 + l5)))))));
    let p1 = i + l1.len();
    lemma_split(s, p1, j1, l2 + (j2 + (l3 + (e3 + (l4 + (e4 + l5))))));
    let p2 = p1 + j1.len();
    lemma_split(s, p2, l2, j2 + (l3 + (e3 + (l4 + (e4 + l5)))));
    let p3 = p2 + l2.len();
    lemma_split(s, p3, j2, l3 + (e3 + (l4 + (e4 + l5))));
    let p4 = p3 + j2.len();
    lemma_split(s, p4, l3, e3 + (l4 + (e4 + l5)));
    let p5 = p4 + l3.len();
    lemma_split(s, p5, e3, l4 + (e4 + l5));
    let p6 = p5 + e3.len();
    lemma_split(s, p6, l4, e4 + l5);
    let p7 = p6 + l4.len();
    lemma_split(s, p7, e4, l5);
    let p8 = p7 + e4.len();
    lemma_rt_string(f.name, s, p1);
    lemma_rt_string(f.description, s, p3);
    lemma_rt_params(f.params, s, p5);
    lemma_rt_returns(f.returns, s, p7);
    assert(expect(s, i, l1) == Some(p1));
    assert(expect(s, p2, l2) == Some(p3));
    assert(expect(s, p4, l3) == Some(p5));
    assert(expect(s, p6, l4) == Some(p7));
    assert(expect(s, p8, l5) == Some(p8 + l5.len()));
    assert(parse_function_at(s, i) == Some((f, i + enc_function(f).len())));
}

proof fn lemma_rt_functions_more(fs: Seq<FunctionModel>, k: int, s: Seq<char>, i: int)
    requires
        0 <= i,
        1 <= k <= fs.len(),
        has_seq_at(s, i, enc_functions_rest(fs, k) + seq![']']),
    ensures
        parse_functions_more(s, i, fs.take(k)) == Some(
            (fs, i + enc_functions_rest(fs, k).len() + 1),
        ),
    decreases fs.len() - k,
{
    reveal_strlit(",");
    if k == fs.len() {
        assert(enc_functions_rest(fs, k) + seq![']'] =~= seq![']']);
        assert(s[i + 0] == (enc_functions_rest(fs, k) + seq![']'])[0]);
        assert(s[i] == ']');
        assert(fs.take(k) =~= fs);
        assert(parse_functions_more(s, i, fs.take(k)) == Some((fs, i + 1)));
    } else {
        assert(enc_functions_rest(fs, k) == ","@ + enc_function(fs[k]) + enc_functions_rest(
            fs,
            k + 1,
        ));
        assert(enc_functions_rest(fs, k) + seq![']'] =~= ","@ + (enc_function(fs[k])
            + (enc_functions_rest(fs, k + 1) + seq![']'])));
        lemma_split(s, i, ","@, enc_function(fs[k]) + (enc_functions_rest(fs, k + 1)
            + seq![']']));
        assert(s[i + 0] == ","@[0]);
        assert(s[i] == ',');
        let p1 = i + ","@.len();
        lemma_split(s, p1, enc_function(fs[k]), enc_functions_rest(fs, k + 1) + seq![']']);
        lemma_rt_function(fs[k], s, p1);
        let p2 = p1 + enc_function(fs[k]).len();
        assert(fs.take(k).push(fs[k]) =~= fs.take(k + 1));
        lemma_rt_functions_more(fs, k + 1, s, p2);
        assert(parse_functions_more(s, i, fs.take(k)) == Some(
            (fs, i + enc_functions_rest(fs, k).len() + 1),
        ));
    }
}

proof fn lemma_rt_functions(fs: Seq<FunctionModel>, s: Seq<char>, i: int)
    requires
        0 <= i,
        has_seq_at(s, i, enc_functions(fs)),
    ensures
        parse_functions_at(s, i) == Some((fs, i + enc_functions(fs).len())),
{
    reveal_strlit("[]");
    reveal_strlit("[");
    reveal_strlit("]");
    if fs.len() == 0 {
        assert(s[i + 0] == "[]"@[0]);
        assert(s[i + 1] == "[]"@[1]);
        assert(s[i] == '[' && s[i + 1] == ']');
        assert(fs =~= Seq::<FunctionModel>::empty());
        assert(parse_functions_at(s, i) == Some((fs, i + 2)));
    } else {
        assert(enc_functions(fs) =~= "["@ + (enc_function(fs[0]) + (enc_functions_rest(fs, 1)
            + seq![']'])));
        lemma_split(s, i, "["@, enc_function(fs[0]) + (enc_functions_rest(fs, 1) + seq![']']));
        assert(s[i + 0] == "["@[0]);
        assert(s[i] == '[');
        let p1 = i + 1;
        lemma_split(s, p1, enc_function(fs[0]), enc_functions_rest(fs, 1) + seq![']']);
        assert(enc_function(fs[0]).len() > 0 && enc_function(fs[0])[0] == '{') by {
            reveal(enc_function);
            reveal_strlit("{\"name\":");
            assert(enc_function(fs[0])[0] == "{\"name\":"@[0]);
        }
        assert(s[p1 + 0] == enc_function(fs[0])[0]);
        assert(s[i + 1] == '{');
        lemma_rt_function(fs[0], s, p1);
        let p2 = p1 + enc_function(fs[0]).len();
        assert(seq![fs[0]] =~= fs.take(1));
        lemma_rt_functions_more(fs, 1, s, p2);
        assert(parse_functions_at(s, i) == Some((fs, i + enc_functions(fs).len())));
    }
}

proof fn lemma_rt_entry(e: (Seq<char>, Seq<FunctionModel>), s: Seq<char>, i: int)
    requires
        0 <= i,
        has_seq_at(s, i, enc_entry(e)),
    ensures
        parse_entry_at(s, i) == Some((e, i + enc_entry(e).len())),
{
    let j1 = json_str(e.0);
    let l = ":"@;
    let e2 = enc_functions(e.1);
    assert(enc_entry(e) =~= j1 + (l + e2));
    lemma_split(s, i, j1, l + e2);
    let p1 = i + j1.len();
    lemma_split(s, p1, l, e2);
    let p2 = p1 + l.len();
    lemma_rt_string(e.0, s, i);
    lemma_rt_functions(e.1, s, p2);
    assert(expect(s, p1, l) == Some(p2));
    assert((e.0, e.1) == e);
    assert(parse_entry_at(s, i) == Some((e, i + enc_entry(e).len())));
}

proof fn lemma_rt_entries_more(d: DocModel, k: int, s: Seq<char>, i: int)
    requires
        0 <= i,
        1 <= k <= d.len(),
        has_seq_at(s, i, enc_entries_rest(d, k) + seq!['}']),
    ensures
        parse_entries_more(s, i, d.take(k)) == Some((d, i + enc_entries_rest(d, k).len() + 1)),
    decreases d.len() - k,
{
    reveal_strlit(",");
    if k == d.len() {
        assert(enc_entries_rest(d, k) + seq!['}'] =~= seq!['}']);
        assert(s[i + 0] == (enc_entries_rest(d, k) + seq!['}'])[0]);
        assert(s[i] == '}');
        assert(d.take(k) =~= d);
        assert(parse_entries_more(s, i, d.take(k)) == Some((d, i + 1)));
    } else {
        assert(enc_entries_rest(d, k) == ","@ + enc_entry(d[k]) + enc_entries_rest(d, k + 1));
        assert(enc_entries_rest(d, k) + seq!['}'] =~= ","@ + (enc_entry(d[k])
            + (enc_entries_rest(d, k + 1) + seq!['}'])));
        lemma_split(s, i, ","@, enc_entry(d[k]) + (enc_entries_rest(d, k + 1) + seq!['}']));
        assert(s[i + 0] == ","@[0]);
        assert(s[i] == ',');
        let p1 = i + ","@.len();
        lemma_split(s, p1, enc_entry(d[k]), enc_entries_rest(d, k + 1) + seq!['}']);
        lemma_rt_entry(d[k], s, p1);
        let p2 = p1 + enc_entry(d[k]).len();
        assert(d.take(k).push(d[k]) =~= d.take(k + 1));
        lemma_rt_entries_more(d, k + 1, s, p2);
        assert(parse_entries_more(s, i, d.take(k)) == Some(
            (d, i + enc_entries_rest(d, k).len() + 1),
        ));
    }
}

proof fn lemma_rt_doc(d: DocModel, s: Seq<char>, i: int)
    requires
        0 <= i,
        has_seq_at(s, i, enc_doc(d)),
    ensures
        parse_doc_at(s, i) == Some((d, i + enc_doc(d).len())),
{
    reveal_strlit("{}");
    reveal_strlit("{");
    reveal_strlit("}");
    if d.len() == 0 {
        assert(s[i + 0] == "{}"@[0]);
        assert(s[i + 1] == "{}"@[1]);
        assert(s[i] == '{' && s[i + 1] == '}');
        assert(d =~= Seq::<(Seq<char>, Seq<FunctionModel>)>::empty());
        assert(parse_doc_at(s, i) == Some((d, i + 2)));
    } else {
        assert(enc_doc(d) =~= "{"@ + (enc_entry(d[0]) + (enc_entries_rest(d, 1) + seq!['}'])));
        lemma_split(s, i, "{"@, enc_entry(d[0]) + (enc_entries_rest(d, 1) + seq!['}']));
        assert(s[i + 0] == "{"@[0]);
        assert(s[i] == '{');
        let p1 = i + 1;
        lemma_split(s, p1, enc_entry(d[0]), enc_entries_rest(d, 1) + seq!['}']);
        assert(enc_entry(d[0]).len() > 0 && enc_entry(d[0])[0] == '"') by {
            assert(enc_entry(d[0])[0] == json_str(d[0].0)[0]);
        }
        assert(s[p1 + 0] == enc_entry(d[0])[0]);
        assert(s[i + 1] == '"');
        lemma_rt_entry(d[0], s, p1);
        let p2 = p1 + enc_entry(d[0]).len();
        assert(seq![d[0]] =~= d.take(1));
        lemma_rt_entries_more(d, 1, s, p2);
        assert(parse_doc_at(s, i) == Some((d, i + enc_doc(d).len())));
    }
}

/// Law: the interchange round trip — parsing the canonical encoding of a
/// documentation mapping reproduces every category, function and field
/// exactly.
pub proof fn lemma_codec_round_trip(d: DocModel)
    ensures
        parse_documentation_spec(enc_doc(d)) == Some(d),
{
    let s = enc_doc(d);
    reveal_strlit("{}");
    reveal_strlit("{");
    reveal_strlit("}");
    assert(s.len() > 0 && !is_space(s[0]) && !is_space(s[s.len() - 1])) by {
        if d.len() == 0 {
            assert(s[0] == '{' && s[1] == '}');
        } else {
            assert(s[0] == "{"@[0]);
            assert(s[s.len() - 1] == "}"@[0]) by {
                assert(s.len() - 1 == ("{"@ + enc_entry(d[0]) + enc_entries_rest(d, 1)).len());
            }
        }
    }
    lemma_trim_unpadded(s);
    assert(has_seq_at(s, 0, s)) by {
        assert(forall|k: int| 0 <= k < s.len() ==> #[trigger] s[0 + k] == s[k]);
    }
    lemma_rt_doc(d, s, 0);
}

} // verus!
