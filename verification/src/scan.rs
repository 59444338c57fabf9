//! The scanner driver: accumulates doc blocks, locates the declaration in
//! the lookahead window, resolves the category, and merges entries into
//! the `Documentation` mapping.

use vstd::prelude::*;
use vstd::string::StrSliceExecFns;
use vstd::string::StringExecFns;

use crate::locate::{extract_function_name, extract_name_spec, opt_str_view};
use crate::model::{
    doc_insert, doc_wf, BlockModel, DocBlock, DocModel, Documentation, Function, FunctionModel,
};
use crate::tags::{
    apply_tag, apply_tag_line, doc_content, extract_doc_content, is_block_start,
    is_block_start_spec, is_doc_comment, is_doc_comment_spec,
};
use crate::text::{find_char_from, split_lines, split_lines_from, str_find_char, str_trim, trim_spec};

verus! {

/// The category and short name for a declared name: a dotted name is
/// split at its first dot into category and remainder; an undotted name
/// is filed under the block's class context, or under "Global" without
/// one, keeping the name unchanged.
pub open spec fn categorize_spec(name: Seq<char>, class_name: Option<Seq<char>>) -> (Seq<
    char,
>, Seq<char>) {
    match find_char_from(name, 0, '.') {
        Some(p) => (name.subrange(0, p), name.subrange(p + 1, name.len() as int)),
        None => (
            match class_name {
                Some(c) => c,
                None => "Global"@,
            },
            name,
        ),
    }
}

/// Resolves the grouping key for a declared name and class context.
pub fn categorize_function(func_name: &str, class_name: &Option<String>) -> (r: (String, String))
    ensures
        (r.0@, r.1@) == categorize_spec(func_name@, class_name.deep_view()),
{
    let n = func_name.unicode_len();
    match str_find_char(func_name, '.') {
        Some(p) => {
            let category = func_name.substring_char(0, p).to_owned();
            let short = func_name.substring_char(p + 1, n).to_owned();
            (category, short)
        },
        None => {
            let category = match class_name {
                Some(c) => c.clone(),
                None => "Global".to_owned(),
            };
            (category, func_name.to_owned())
        },
    }
}

/// Accumulation of a doc block: consumes consecutive doc-comment lines
/// starting at `i`, feeding each line's content to the tag parser;
/// returns the finished draft and the index of the first line after the
/// block.
pub open spec fn accum_block(lines: Seq<Seq<char>>, i: int, b: BlockModel) -> (BlockModel, int)
    decreases lines.len() - i,
{
    if 0 <= i < lines.len() && is_doc_comment_spec(lines[i]) {
        accum_block(lines, i + 1, apply_tag(b, doc_content(lines[i])))
    } else {
        (b, i)
    }
}

pub proof fn lemma_accum_block_range(lines: Seq<Seq<char>>, i: int, b: BlockModel)
    requires
        0 <= i <= lines.len(),
    ensures
        i <= accum_block(lines, i, b).1 <= lines.len(),
        i < lines.len() && is_doc_comment_spec(lines[i]) ==> accum_block(lines, i, b).1 >= i + 1,
    decreases lines.len() - i,
{
    if i < lines.len() && is_doc_comment_spec(lines[i]) {
        lemma_accum_block_range(lines, i + 1, apply_tag(b, doc_content(lines[i])));
    }
}

/// A line that holds nothing but whitespace.
pub open spec fn is_blank_spec(l: Seq<char>) -> bool {
    trim_spec(l).len() == 0
}

/// Index of the first non-blank line at or after `j`.
pub open spec fn skip_blank_lines(lines: Seq<Seq<char>>, j: int) -> int
    decreases lines.len() - j,
{
    if 0 <= j < lines.len() && is_blank_spec(lines[j]) {
        skip_blank_lines(lines, j + 1)
    } else {
        j
    }
}

pub proof fn lemma_skip_blank_lines_range(lines: Seq<Seq<char>>, j: int)
    requires
        0 <= j <= lines.len(),
    ensures
        j <= skip_blank_lines(lines, j) <= lines.len(),
    decreases lines.len() - j,
{
    if j < lines.len() && is_blank_spec(lines[j]) {
        lemma_skip_blank_lines_range(lines, j + 1);
    }
}

/// The declaration found in the lookahead window: the first of the three
/// lines starting at `i` from which a declared name can be extracted.
pub open spec fn locate_decl(lines: Seq<Seq<char>>, i: int) -> Option<Seq<char>> {
    if 0 <= i < lines.len() && extract_name_spec(lines[i]) is Some {
        extract_name_spec(lines[i])
    } else if 0 <= i + 1 < lines.len() && extract_name_spec(lines[i + 1]) is Some {
        extract_name_spec(lines[i + 1])
    } else if 0 <= i + 2 < lines.len() && extract_name_spec(lines[i + 2]) is Some {
        extract_name_spec(lines[i + 2])
    } else {
        None
    }
}

/// One doc block parsed from position `i`: the accumulated draft is
/// combined with the declaration found in the lookahead window, which is
/// anchored at the block's end, so blank lines count against it. The
/// second component is the cursor position after the block and its
/// trailing blank lines.
pub open spec fn parse_block(lines: Seq<Seq<char>>, i: int) -> (Option<(Seq<char>, FunctionModel)>, int) {
    let bj = accum_block(lines, i, crate::model::empty_block(i));
    let b = bj.0;
    let j = bj.1;
    let cur = skip_blank_lines(lines, j);
    match locate_decl(lines, j) {
        Some(n) => {
            let cs = categorize_spec(n, b.class_name);
            (
                Some(
                    (
                        cs.0,
                        FunctionModel {
                            name: cs.1,
                            description: b.description,
                            params: b.params,
                            returns: b.returns,
                        },
                    ),
                ),
                cur,
            )
        },
        None => (None, cur),
    }
}

/// View of an optional scanner entry.
pub open spec fn opt_entry_view(r: Option<(String, Function)>) -> Option<(Seq<char>, FunctionModel)> {
    match r {
        Some(e) => Some((e.0@, e.1@)),
        None => None,
    }
}

/// Accumulates the doc block starting at `*index`, then searches the
/// three-line lookahead window — anchored at the block's end, so blank
/// lines count against it — for a declaration. On success the entry's
/// category and documented function are returned; otherwise the block is
/// discarded. `*index` is left at the first line after the block and its
/// trailing blank lines; the lookahead itself never advances `*index`.
pub fn parse_function_doc(lines: &Vec<String>, index: &mut usize) -> (r: Option<(String, Function)>)
    requires
        *old(index) <= lines@.len(),
    ensures
        opt_entry_view(r) == parse_block(lines.deep_view(), *old(index) as int).0,
        *final(index) as int == parse_block(lines.deep_view(), *old(index) as int).1,
        *old(index) <= *final(index) <= lines@.len(),
        *old(index) < lines@.len() && is_doc_comment_spec(lines.deep_view()[*old(index) as int])
            ==> *final(index) > *old(index),
{
    let ghost lv = lines.deep_view();
    let ghost i0 = *index as int;
    let mut block = DocBlock::new(*index);
    while *index < lines.len() && is_doc_comment(lines[*index].as_str())
        invariant
            lv == lines.deep_view(),
            i0 <= *index as int <= lines@.len(),
            accum_block(lv, i0, crate::model::empty_block(i0)) == accum_block(
                lv,
                *index as int,
                block@,
            ),
        decreases lines@.len() - *index,
    {
        proof {
            assert(lv[*index as int] == lines@[*index as int]@);
        }
        let content = extract_doc_content(lines[*index].as_str());
        apply_tag_line(&mut block, content.as_str());
        *index += 1;
    }
    proof {
        assert(lines@.len() == lv.len());
        if *index < lines.len() {
            assert(lv[*index as int] == lines@[*index as int]@);
        }
        assert(accum_block(lv, *index as int, block@) == (block@, *index as int));
        if i0 < lv.len() && is_doc_comment_spec(lv[i0]) {
            lemma_accum_block_range(lv, i0, crate::model::empty_block(i0));
        }
    }
    let j = *index;
    while *index < lines.len() && str_trim(lines[*index].as_str()).is_empty()
        invariant
            lv == lines.deep_view(),
            j <= *index <= lines@.len(),
            lines@.len() == lv.len(),
            skip_blank_lines(lv, j as int) == skip_blank_lines(lv, *index as int),
        decreases lines@.len() - *index,
    {
        proof {
            assert(lv[*index as int] == lines@[*index as int]@);
        }
        *index += 1;
    }
    proof {
        if *index < lines.len() {
            assert(lv[*index as int] == lines@[*index as int]@);
        }
        assert(skip_blank_lines(lv, *index as int) == *index as int);
    }
    let mut found: Option<String> = None;
    if j < lines.len() {
        proof {
            assert(lv[j as int] == lines@[j as int]@);
        }
        found = extract_function_name(lines[j].as_str());
    }
    if found.is_none() && lines.len() - j > 1 {
        proof {
            assert(lv[j as int + 1] == lines@[j as int + 1]@);
        }
        found = extract_function_name(lines[j + 1].as_str());
    }
    if found.is_none() && lines.len() - j > 2 {
        proof {
            assert(lv[j as int + 2] == lines@[j as int + 2]@);
        }
        found = extract_function_name(lines[j + 2].as_str());
    }
    assert(opt_str_view(found) == locate_decl(lv, j as int));
    match found {
        Some(name) => {
            let (category, short) = categorize_function(name.as_str(), &block.class_name);
            let f = Function {
                name: short,
                description: block.description,
                params: block.params,
                returns: block.returns,
            };
            Some((category, f))
        },
        None => None,
    }
}

/// The entries discovered from line `i` on, in discovery order: whenever
/// a line opens a doc block, the block is parsed and scanning resumes on
/// the line after the block's last consumed line.
pub open spec fn scan_from(lines: Seq<Seq<char>>, i: int) -> Seq<(Seq<char>, FunctionModel)>
    decreases lines.len() - i,
{
    if !(0 <= i < lines.len()) {
        Seq::empty()
    } else if is_block_start_spec(lines[i]) {
        let rj = parse_block(lines, i);
        proof {
            assert(is_doc_comment_spec(lines[i]));
            lemma_accum_block_range(lines, i, crate::model::empty_block(i));
            lemma_skip_blank_lines_range(
                lines,
                accum_block(lines, i, crate::model::empty_block(i)).1,
            );
        }
        let next = if rj.1 < lines.len() {
            rj.1 + 1
        } else {
            rj.1
        };
        (match rj.0 {
            Some(e) => seq![e],
            None => Seq::empty(),
        }) + scan_from(lines, next)
    } else {
        scan_from(lines, i + 1)
    }
}

/// Entries folded into the documentation mapping, in order.
pub open spec fn insert_entries(d: DocModel, es: Seq<(Seq<char>, FunctionModel)>) -> DocModel
    decreases es.len(),
{
    if es.len() == 0 {
        d
    } else {
        insert_entries(doc_insert(d, es[0].0, es[0].1), es.drop_first())
    }
}

/// The documentation gathered from one source text, merged into `d`.
pub open spec fn scan_into(d: DocModel, lines: Seq<Seq<char>>) -> DocModel {
    insert_entries(d, scan_from(lines, 0))
}

/// The documentation gathered from the sources `srcs[i..]`, merged into `d`.
pub open spec fn scan_all(srcs: Seq<Seq<char>>, i: int, d: DocModel) -> DocModel
    decreases srcs.len() - i,
{
    if !(0 <= i < srcs.len()) {
        d
    } else {
        scan_all(srcs, i + 1, scan_into(d, split_lines_from(srcs[i], 0)))
    }
}

/// Scans one source text and merges every discovered entry into `docs`.
pub fn parse_lua_source(text: &str, docs: &mut Documentation)
    requires
        doc_wf(old(docs)@),
    ensures
        final(docs)@ == scan_into(old(docs)@, split_lines_from(text@, 0)),
        doc_wf(final(docs)@),
{
    let lines = split_lines(text);
    let ghost lv = lines.deep_view();
    let ghost d0 = docs@;
    let mut i: usize = 0;
    while i < lines.len()
        invariant
            lv == lines.deep_view(),
            lines@.len() == lv.len(),
            i <= lines@.len(),
            doc_wf(docs@),
            insert_entries(d0, scan_from(lv, 0)) == insert_entries(docs@, scan_from(lv, i as int)),
        decreases lines@.len() - i,
    {
        proof {
            assert(lv[i as int] == lines@[i as int]@);
        }
        if is_block_start(lines[i].as_str()) {
            let ghost iold = i as int;
            let r = parse_function_doc(&lines, &mut i);
            let ghost j = i as int;
            let ghost next = if j < lv.len() { j + 1 } else { j };
            proof {
                assert(is_doc_comment_spec(lv[iold]));
                assert(j > iold);
                assert(scan_from(lv, iold) == (match parse_block(lv, iold).0 {
                    Some(e) => seq![e],
                    None => Seq::<(Seq<char>, FunctionModel)>::empty(),
                }) + scan_from(lv, next));
            }
            match r {
                Some(entry) => {
                    let (cat, f) = entry;
                    let ghost dpre = docs@;
                    docs.insert(cat, f);
                    proof {
                        let es = scan_from(lv, iold);
                        assert(es[0] == (cat@, f@));
                        assert(es.drop_first() =~= scan_from(lv, next));
                        assert(insert_entries(dpre, es) == insert_entries(
                            doc_insert(dpre, cat@, f@),
                            scan_from(lv, next),
                        ));
                    }
                },
                None => {
                    proof {
                        assert(scan_from(lv, iold) =~= scan_from(lv, next));
                    }
                },
            }
            if i < lines.len() {
                i = i + 1;
            }
            assert(i as int == next);
        } else {
            assert(scan_from(lv, i as int) == scan_from(lv, i as int + 1));
            i += 1;
        }
    }
    proof {
        assert(scan_from(lv, i as int) =~= Seq::<(Seq<char>, FunctionModel)>::empty());
        assert(insert_entries(docs@, scan_from(lv, i as int)) == docs@);
    }
}

/// Scans the contents of a directory's source files, already read into
/// memory in traversal order, and builds the documentation mapping.
pub fn scan_directory(sources: &Vec<String>) -> (docs: Documentation)
    ensures
        docs@ == scan_all(sources.deep_view(), 0, Seq::empty()),
        doc_wf(docs@),
{
    let ghost sv = sources.deep_view();
    let mut docs = Documentation::new();
    let mut k: usize = 0;
    while k < sources.len()
        invariant
            sv == sources.deep_view(),
            sources@.len() == sv.len(),
            k <= sources@.len(),
            doc_wf(docs@),
            scan_all(sv, 0, Seq::empty()) == scan_all(sv, k as int, docs@),
        decreases sources@.len() - k,
    {
        proof {
            assert(sv[k as int] == sources@[k as int]@);
        }
        parse_lua_source(sources[k].as_str(), &mut docs);
        k += 1;
    }
    docs
}

} // verus!
