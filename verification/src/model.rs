//! The documentation data model: parameters, return values, documented
//! functions, doc-block drafts, and the category-keyed `Documentation`
//! mapping, together with their mathematical views.

use vstd::prelude::*;

verus! {

/// Mathematical view of a `Param`.
#[verifier::ext_equal]
pub struct ParamModel {
    pub name: Seq<char>,
    pub param_type: Seq<char>,
    pub description: Seq<char>,
}

/// A documented parameter: a name, a free-form type, and a description
/// (possibly empty). Immutable once parsed.
#[derive(Debug, PartialEq)]
pub struct Param {
    pub name: String,
    pub param_type: String,
    pub description: String,
}

impl View for Param {
    type V = ParamModel;

    open spec fn view(&self) -> ParamModel {
        ParamModel { name: self.name@, param_type: self.param_type@, description: self.description@ }
    }
}

impl DeepView for Param {
    type V = ParamModel;

    open spec fn deep_view(&self) -> ParamModel {
        self.view()
    }
}

/// Mathematical view of a `Return`.
#[verifier::ext_equal]
pub struct ReturnModel {
    pub return_type: Seq<char>,
    pub description: Seq<char>,
}

/// A documented return value: a type and a description (possibly empty).
/// Immutable once parsed.
#[derive(Debug, PartialEq)]
pub struct Return {
    pub return_type: String,
    pub description: String,
}

impl View for Return {
    type V = ReturnModel;

    open spec fn view(&self) -> ReturnModel {
        ReturnModel { return_type: self.return_type@, description: self.description@ }
    }
}

impl DeepView for Return {
    type V = ReturnModel;

    open spec fn deep_view(&self) -> ReturnModel {
        self.view()
    }
}

/// Mathematical view of a `Function`.
#[verifier::ext_equal]
pub struct FunctionModel {
    pub name: Seq<char>,
    pub description: Seq<char>,
    pub params: Seq<ParamModel>,
    pub returns: Seq<ReturnModel>,
}

/// A documented function: its short name, description, and ordered
/// parameter and return lists. Created once per recognized declaration.
#[derive(Debug, PartialEq)]
pub struct Function {
    pub name: String,
    pub description: String,
    pub params: Vec<Param>,
    pub returns: Vec<Return>,
}

impl View for Function {
    type V = FunctionModel;

    open spec fn view(&self) -> FunctionModel {
        FunctionModel {
            name: self.name@,
            description: self.description@,
            params: self.params.deep_view(),
            returns: self.returns.deep_view(),
        }
    }
}

impl DeepView for Function {
    type V = FunctionModel;

    open spec fn deep_view(&self) -> FunctionModel {
        self.view()
    }
}

/// Mathematical view of a `DocBlock`.
#[verifier::ext_equal]
pub struct BlockModel {
    pub class_name: Option<Seq<char>>,
    pub description: Seq<char>,
    pub params: Seq<ParamModel>,
    pub returns: Seq<ReturnModel>,
    pub start_line: int,
}

/// Transient draft built while accumulating one annotation block.
#[derive(Debug)]
pub struct DocBlock {
    pub class_name: Option<String>,
    pub description: String,
    pub params: Vec<Param>,
    pub returns: Vec<Return>,
    pub start_line: usize,
}

impl View for DocBlock {
    type V = BlockModel;

    open spec fn view(&self) -> BlockModel {
        BlockModel {
            class_name: self.class_name.deep_view(),
            description: self.description@,
            params: self.params.deep_view(),
            returns: self.returns.deep_view(),
            start_line: self.start_line as int,
        }
    }
}

/// The empty draft for a block starting at line `start`.
pub open spec fn empty_block(start: int) -> BlockModel {
    BlockModel {
        class_name: None,
        description: Seq::empty(),
        params: Seq::empty(),
        returns: Seq::empty(),
        start_line: start,
    }
}

impl DocBlock {
    /// A fresh, empty doc-block draft recording its starting line.
    pub fn new(start_line: usize) -> (r: DocBlock)
        ensures
            r@ == empty_block(start_line as int),
    {
        let r = DocBlock {
            class_name: None,
            description: String::new(),
            params: Vec::new(),
            returns: Vec::new(),
            start_line,
        };
        proof {
            assert(r@.params =~= Seq::<ParamModel>::empty());
            assert(r@.returns =~= Seq::<ReturnModel>::empty());
            assert(r@ =~= empty_block(start_line as int));
        }
        r
    }
}

/// Mathematical view of `Documentation`: category names paired with their
/// documented functions, in discovery order.
pub type DocModel = Seq<(Seq<char>, Seq<FunctionModel>)>;

/// Category names are unique.
pub open spec fn doc_wf(d: DocModel) -> bool {
    forall|i: int, j: int| 0 <= i < j < d.len() ==> d[i].0 != d[j].0
}

/// Position of category `cat` in `d`, searching from `i`.
pub open spec fn cat_index_from(d: DocModel, cat: Seq<char>, i: int) -> Option<int>
    decreases d.len() - i,
{
    if !(0 <= i < d.len()) {
        None
    } else if d[i].0 == cat {
        Some(i)
    } else {
        cat_index_from(d, cat, i + 1)
    }
}

/// Files `f` under `cat`: appends to the category's list if the category
/// exists, else adds the category at the end with `f` as its first entry.
pub open spec fn doc_insert(d: DocModel, cat: Seq<char>, f: FunctionModel) -> DocModel {
    match cat_index_from(d, cat, 0) {
        Some(k) => d.update(k, (cat, d[k].1.push(f))),
        None => d.push((cat, seq![f])),
    }
}

pub proof fn lemma_cat_index_from(d: DocModel, cat: Seq<char>, i: int)
    requires
        0 <= i,
    ensures
        match cat_index_from(d, cat, i) {
            Some(k) => i <= k < d.len() && d[k].0 == cat && forall|j: int|
                i <= j < k ==> d[j].0 != cat,
            None => forall|j: int| i <= j < d.len() ==> d[j].0 != cat,
        },
    decreases d.len() - i,
{
    if 0 <= i < d.len() && d[i].0 != cat {
        lemma_cat_index_from(d, cat, i + 1);
    }
}

/// Inserting preserves uniqueness of category names.
pub proof fn lemma_doc_insert_wf(d: DocModel, cat: Seq<char>, f: FunctionModel)
    requires
        doc_wf(d),
    ensures
        doc_wf(doc_insert(d, cat, f)),
{
    lemma_cat_index_from(d, cat, 0);
    match cat_index_from(d, cat, 0) {
        Some(k) => {
            let d2 = d.update(k, (cat, d[k].1.push(f)));
            assert forall|i: int, j: int| 0 <= i < j < d2.len() implies d2[i].0 != d2[j].0 by {
                assert(d[i].0 != d[j].0);
            }
        },
        None => {
            let d2 = d.push((cat, seq![f]));
            assert forall|i: int, j: int| 0 <= i < j < d2.len() implies d2[i].0 != d2[j].0 by {
                if j < d.len() {
                    assert(d[i].0 != d[j].0);
                } else {
                    assert(d2[j].0 == cat);
                    assert(d2[i].0 == d[i].0);
                }
            }
        },
    }
}

/// The documentation mapping: category name to ordered documented
/// functions. Keys are unique; order is discovery order.
#[derive(Debug, PartialEq)]
pub struct Documentation {
    pub entries: Vec<(String, Vec<Function>)>,
}

impl View for Documentation {
    type V = DocModel;

    open spec fn view(&self) -> DocModel {
        Seq::new(self.entries@.len(), |i: int| (self.entries@[i].0@, self.entries@[i].1.deep_view()))
    }
}

impl Documentation {
    /// An empty documentation mapping.
    pub fn new() -> (r: Documentation)
        ensures
            r@ == Seq::<(Seq<char>, Seq<FunctionModel>)>::empty(),
            doc_wf(r@),
    {
        let r = Documentation { entries: Vec::new() };
        proof {
            assert(r@ =~= Seq::<(Seq<char>, Seq<FunctionModel>)>::empty());
        }
        r
    }

    /// Number of categories.
    pub fn len(&self) -> (n: usize)
        ensures
            n == self@.len(),
    {
        self.entries.len()
    }

    /// The category name at position `i` (discovery order).
    pub fn category_at(&self, i: usize) -> (r: &String)
        requires
            i < self@.len(),
        ensures
            r@ == self@[i as int].0,
    {
        &self.entries[i].0
    }

    /// The documented functions of the category at position `i`.
    pub fn functions_at(&self, i: usize) -> (r: &Vec<Function>)
        requires
            i < self@.len(),
        ensures
            r.deep_view() == self@[i as int].1,
    {
        &self.entries[i].1
    }

    /// Files `f` under category `cat`, preserving discovery order.
    pub fn insert(&mut self, cat: String, f: Function)
        requires
            doc_wf(old(self)@),
        ensures
            final(self)@ == doc_insert(old(self)@, cat@, f@),
            doc_wf(final(self)@),
    {
        proof {
            lemma_doc_insert_wf(old(self)@, cat@, f@);
        }
        let ghost d0 = self@;
        let n = self.entries.len();
        let mut k: usize = 0;
        while k < n
            invariant
                n == self.entries@.len(),
                k <= n,
                self@ == d0,
                d0 == old(self)@,
                doc_wf(d0),
                cat_index_from(d0, cat@, 0) == cat_index_from(d0, cat@, k as int),
            decreases n - k,
        {
            if self.entries[k].0 == cat {
                assert(d0[k as int].0 == cat@);
                assert(cat_index_from(d0, cat@, 0) == Some(k as int));
                let ghost e0 = self.entries@;
                let mut pair = self.entries.remove(k);
                let ghost oldpair = pair;
                pair.1.push(f);
                let ghost pv = pair;
                self.entries.insert(k, pair);
                proof {
                    lemma_doc_insert_wf(d0, cat@, f@);
                    e0.remove_ensures(k as int);
                    e0.remove(k as int).insert_ensures(k as int, pv);
                    assert(pv.1.deep_view() =~= oldpair.1.deep_view().push(f@));
                    let target = d0.update(k as int, (cat@, d0[k as int].1.push(f@)));
                    assert forall|i: int| 0 <= i < self@.len() implies self@[i] == target[i] by {
                        if i == k as int {
                            assert(self.entries@[i] == pv);
                        } else if i < k as int {
                            assert(self.entries@[i] == e0.remove(k as int)[i]);
                            assert(self.entries@[i] == e0[i]);
                        } else {
                            assert(self.entries@[i] == e0.remove(k as int)[i - 1]);
                            assert(self.entries@[i] == e0[i]);
                        }
                    }
                    assert(self@ =~= target);
                }
                return;
            }
            assert(d0[k as int].0 != cat@);
            k += 1;
        }
        assert(cat_index_from(d0, cat@, 0) is None);
        let mut funcs: Vec<Function> = Vec::new();
        funcs.push(f);
        self.entries.push((cat, funcs));
        proof {
            assert(funcs.deep_view() =~= seq![f@]);
            assert(self@ =~= d0.push((cat@, seq![f@])));
        }
    }
}

} // verus!
