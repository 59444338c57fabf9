//! The annotation tag parser: recognizing annotation comment lines,
//! extracting their content, and parsing `class` / `desc` / `param` /
//! `return` tags into the doc-block draft.

use vstd::prelude::*;
use vstd::string::StrSliceExecFns;
use vstd::string::StringExecFns;

use crate::model::{BlockModel, DocBlock, Param, ParamModel, Return, ReturnModel};
use crate::text::{
    find_char_from, find_space_from, has_prefix, join_from, join_spaced, split_whitespace_vec,
    str_eq, str_find_char, str_find_space, str_has_prefix, str_trim, str_trim_start, strip_all,
    strip_all_prefix, tokens_from, trim_spec, trim_start_spec,
};

verus! {

/// A line belongs to a doc block: after leading whitespace it carries an
/// explicit tag marker (`--@` or `-- @`) or is a generic `--` comment that
/// is neither a triple-dash marker nor a TODO/FIXME note.
pub open spec fn is_doc_comment_spec(l: Seq<char>) -> bool {
    let t = trim_start_spec(l);
    has_prefix(t, "--@"@) || has_prefix(t, "-- @"@) || (has_prefix(t, "--"@) && !has_prefix(
        t,
        "---"@,
    ) && !has_prefix(t, "-- TODO"@) && !has_prefix(t, "-- FIXME"@))
}

/// A line opens a doc block: it carries an explicit tag marker.
pub open spec fn is_block_start_spec(l: Seq<char>) -> bool {
    let t = trim_start_spec(l);
    has_prefix(t, "--@"@) || has_prefix(t, "-- @"@)
}

/// Whether `line` belongs to a doc block.
pub fn is_doc_comment(line: &str) -> (r: bool)
    ensures
        r == is_doc_comment_spec(line@),
{
    let t = str_trim_start(line);
    str_has_prefix(t, "--@") || str_has_prefix(t, "-- @") || (str_has_prefix(t, "--")
        && !str_has_prefix(t, "---") && !str_has_prefix(t, "-- TODO") && !str_has_prefix(
        t,
        "-- FIXME",
    ))
}

/// Whether `line` opens a doc block.
pub fn is_block_start(line: &str) -> (r: bool)
    ensures
        r == is_block_start_spec(line@),
{
    let t = str_trim_start(line);
    str_has_prefix(t, "--@") || str_has_prefix(t, "-- @")
}

/// The annotation content of a doc-comment line: the line without leading
/// whitespace, comment and tag markers, trimmed.
pub open spec fn doc_content(l: Seq<char>) -> Seq<char> {
    trim_spec(
        strip_all(strip_all(strip_all(trim_start_spec(l), "--@"@), "-- @"@), "--"@),
    )
}

/// Strips the comment-and-tag-marker prefix from an annotation line.
pub fn extract_doc_content(line: &str) -> (r: String)
    ensures
        r@ == doc_content(line@),
{
    proof {
        reveal_strlit("--@");
        reveal_strlit("-- @");
        reveal_strlit("--");
    }
    let t = str_trim_start(line);
    let t = strip_all_prefix(t, "--@");
    let t = strip_all_prefix(t, "-- @");
    let t = strip_all_prefix(t, "--");
    str_trim(t).to_owned()
}

/// The result of parsing a parameter spec, following the shapes tried in
/// order: `name:type description` (the remainder after the colon is split
/// on its first whitespace character), `name:type`, comma-separated
/// fields, then whitespace-separated tokens; fewer than two tokens is a
/// failure.
pub open spec fn spec_parse_param(raw: Seq<char>) -> Option<ParamModel> {
    let t = trim_spec(raw);
    match find_char_from(t, 0, ':') {
        Some(cp) => {
            let name = trim_spec(t.subrange(0, cp));
            let rest = t.subrange(cp + 1, t.len() as int);
            match find_space_from(rest, 0) {
                Some(sp) => Some(
                    ParamModel {
                        name,
                        param_type: trim_spec(rest.subrange(0, sp)),
                        description: trim_spec(rest.subrange(sp + 1, rest.len() as int)),
                    },
                ),
                None => Some(
                    ParamModel { name, param_type: trim_spec(rest), description: Seq::empty() },
                ),
            }
        },
        None => match find_char_from(t, 0, ',') {
            Some(c1) => {
                let p0 = trim_spec(t.subrange(0, c1));
                let r1 = t.subrange(c1 + 1, t.len() as int);
                match find_char_from(r1, 0, ',') {
                    Some(c2) => Some(
                        ParamModel {
                            name: p0,
                            param_type: trim_spec(r1.subrange(0, c2)),
                            description: trim_spec(r1.subrange(c2 + 1, r1.len() as int)),
                        },
                    ),
                    None => Some(
                        ParamModel { name: p0, param_type: trim_spec(r1), description: Seq::empty() },
                    ),
                }
            },
            None => {
                let ws = tokens_from(t, 0);
                if ws.len() >= 2 {
                    Some(
                        ParamModel {
                            name: ws[0],
                            param_type: ws[1],
                            description: join_spaced(ws.skip(2)),
                        },
                    )
                } else {
                    None
                }
            },
        },
    }
}

/// View of an optional parameter.
pub open spec fn opt_param_view(r: Option<Param>) -> Option<ParamModel> {
    match r {
        Some(p) => Some(p@),
        None => None,
    }
}

/// Parses one parameter spec; a spec with fewer than two identifiable
/// fields fails and yields `None`.
pub fn parse_param(content: &str) -> (r: Option<Param>)
    ensures
        opt_param_view(r) == spec_parse_param(content@),
{
    let t = str_trim(content);
    let n = t.unicode_len();
    match str_find_char(t, ':') {
        Some(cp) => {
            let name = str_trim(t.substring_char(0, cp)).to_owned();
            let rest = t.substring_char(cp + 1, n);
            let rn = rest.unicode_len();
            match str_find_space(rest) {
                Some(sp) => {
                    let param_type = str_trim(rest.substring_char(0, sp)).to_owned();
                    let description = str_trim(rest.substring_char(sp + 1, rn)).to_owned();
                    Some(Param { name, param_type, description })
                },
                None => {
                    let param_type = str_trim(rest).to_owned();
                    Some(Param { name, param_type, description: String::new() })
                },
            }
        },
        None => {
            match str_find_char(t, ',') {
                Some(c1) => {
                    let p0 = str_trim(t.substring_char(0, c1)).to_owned();
                    let r1 = t.substring_char(c1 + 1, n);
                    let rn = r1.unicode_len();
                    match str_find_char(r1, ',') {
                        Some(c2) => {
                            let p1 = str_trim(r1.substring_char(0, c2)).to_owned();
                            let p2 = str_trim(r1.substring_char(c2 + 1, rn)).to_owned();
                            Some(Param { name: p0, param_type: p1, description: p2 })
                        },
                        None => {
                            let p1 = str_trim(r1).to_owned();
                            Some(Param { name: p0, param_type: p1, description: String::new() })
                        },
                    }
                },
                None => {
                    let words = split_whitespace_vec(t);
                    if words.len() >= 2 {
                        let description = join_from(&words, 2);
                        let name = words[0].clone();
                        let param_type = words[1].clone();
                        Some(Param { name, param_type, description })
                    } else {
                        None
                    }
                },
            }
        },
    }
}

/// The result of parsing a return spec, following the shapes tried in
/// order: `type, description`, `type description` (split on the first
/// whitespace character), then the whole content as the type. Return
/// parsing never fails.
pub open spec fn spec_parse_return(raw: Seq<char>) -> Option<ReturnModel> {
    let t = trim_spec(raw);
    match find_char_from(t, 0, ',') {
        Some(cp) => Some(
            ReturnModel {
                return_type: trim_spec(t.subrange(0, cp)),
                description: trim_spec(t.subrange(cp + 1, t.len() as int)),
            },
        ),
        None => match find_space_from(t, 0) {
            Some(sp) => Some(
                ReturnModel {
                    return_type: trim_spec(t.subrange(0, sp)),
                    description: trim_spec(t.subrange(sp + 1, t.len() as int)),
                },
            ),
            None => Some(ReturnModel { return_type: t, description: Seq::empty() }),
        },
    }
}

/// View of an optional return value.
pub open spec fn opt_return_view(r: Option<Return>) -> Option<ReturnModel> {
    match r {
        Some(p) => Some(p@),
        None => None,
    }
}

/// Parses one return spec; always succeeds, falling back to the whole
/// content as the type with an empty description.
pub fn parse_return(content: &str) -> (r: Option<Return>)
    ensures
        opt_return_view(r) == spec_parse_return(content@),
        r is Some,
{
    let t = str_trim(content);
    let n = t.unicode_len();
    match str_find_char(t, ',') {
        Some(cp) => {
            let return_type = str_trim(t.substring_char(0, cp)).to_owned();
            let description = str_trim(t.substring_char(cp + 1, n)).to_owned();
            Some(Return { return_type, description })
        },
        None => {
            match str_find_space(t) {
                Some(sp) => {
                    let return_type = str_trim(t.substring_char(0, sp)).to_owned();
                    let description = str_trim(t.substring_char(sp + 1, n)).to_owned();
                    Some(Return { return_type, description })
                },
                None => Some(Return { return_type: t.to_owned(), description: String::new() }),
            }
        },
    }
}

/// How one annotation line's content updates the doc-block draft:
/// `class` overwrites the class context (last occurrence wins), `desc`
/// appends to the description with a single-space separator, `param` and
/// `return` append to their lists, and any other non-empty content
/// becomes the description when none exists yet. A `return` tag without a
/// payload is never dropped: it degrades to an entry with the placeholder
/// type `any` and an empty description. A `param` tag without a payload
/// is a malformed parameter spec and is skipped. A bare `@` tag is
/// ignored.
pub open spec fn apply_tag(b: BlockModel, content: Seq<char>) -> BlockModel {
    if has_prefix(content, "class "@) {
        BlockModel {
            class_name: Some(trim_spec(content.subrange("class "@.len() as int, content.len() as int))),
            ..b
        }
    } else if has_prefix(content, "desc "@) {
        let text = trim_spec(content.subrange("desc "@.len() as int, content.len() as int));
        BlockModel {
            description: if b.description.len() == 0 {
                text
            } else {
                b.description + " "@ + text
            },
            ..b
        }
    } else if has_prefix(content, "param "@) {
        match spec_parse_param(content.subrange("param "@.len() as int, content.len() as int)) {
            Some(p) => BlockModel { params: b.params.push(p), ..b },
            None => b,
        }
    } else if has_prefix(content, "return "@) {
        match spec_parse_return(content.subrange("return "@.len() as int, content.len() as int)) {
            Some(r) => BlockModel { returns: b.returns.push(r), ..b },
            None => b,
        }
    } else if content == "return"@ {
        BlockModel {
            returns: b.returns.push(
                ReturnModel { return_type: "any"@, description: Seq::empty() },
            ),
            ..b
        }
    } else if content == "param"@ {
        b
    } else if content.len() > 0 && content[0] == '@' {
        b
    } else if trim_spec(content).len() > 0 && b.description.len() == 0 {
        BlockModel { description: trim_spec(content), ..b }
    } else {
        b
    }
}

/// Feeds one annotation line's content into the doc-block draft.
pub fn apply_tag_line(b: &mut DocBlock, content: &str)
    ensures
        final(b)@ == apply_tag(old(b)@, content@),
{
    let n = content.unicode_len();
    if str_has_prefix(content, "class ") {
        let pl = "class ".unicode_len();
        let name = str_trim(content.substring_char(pl, n)).to_owned();
        b.class_name = Some(name);
    } else if str_has_prefix(content, "desc ") {
        let pl = "desc ".unicode_len();
        let text = str_trim(content.substring_char(pl, n)).to_owned();
        if b.description.as_str().is_empty() {
            b.description = text;
        } else {
            b.description.append(" ");
            b.description.append(text.as_str());
        }
    } else if str_has_prefix(content, "param ") {
        let pl = "param ".unicode_len();
        let sub = content.substring_char(pl, n);
        match parse_param(sub) {
            Some(p) => {
                let ghost oldparams = b.params.deep_view();
                b.params.push(p);
                proof {
                    assert(b.params.deep_view() =~= oldparams.push(p@));
                }
            },
            None => {},
        }
    } else if str_has_prefix(content, "return ") {
        let pl = "return ".unicode_len();
        let sub = content.substring_char(pl, n);
        match parse_return(sub) {
            Some(r) => {
                let ghost oldreturns = b.returns.deep_view();
                b.returns.push(r);
                proof {
                    assert(b.returns.deep_view() =~= oldreturns.push(r@));
                }
            },
            None => {},
        }
    } else if str_eq(content, "return") {
        let ghost oldreturns = b.returns.deep_view();
        b.returns.push(Return { return_type: "any".to_owned(), description: String::new() });
        proof {
            assert(b.returns.deep_view() =~= oldreturns.push(
                ReturnModel { return_type: "any"@, description: Seq::empty() },
            ));
        }
    } else if str_eq(content, "param") {
        // a parameter spec with no payload cannot be parsed: skipped
    } else if n > 0 && content.get_char(0) == '@' {
        // unrecognized, redundant tag: ignored without affecting the block
    } else {
        let text = str_trim(content);
        if !text.is_empty() && b.description.as_str().is_empty() {
            b.description = text.to_owned();
        }
    }
}

} // verus!
