//! What goes to the vector store for each element, and the admission gate
//! that bounds how many element uploads run at once.

use vstd::prelude::*;

use crate::models::{element_views, CodeElement, CodeFile, ElementView, ItemKind};
use crate::parsing::{extract_documentation, module_docs};
use crate::resolve::file_elements;
use crate::text::{chars_of, lines_of, replace_all, replace_chars, string_of};

verus! {

/// The text embedded for an element: for a module its inner documentation,
/// for any other element its code.
pub open spec fn embedding_text_of(e: ElementView) -> Seq<char> {
    if e.id.1 == ItemKind::Mod {
        module_docs(lines_of(e.code))
    } else {
        e.code
    }
}

/// The code stored with an element: for a module its inner documentation
/// without the `//!` markers; then without any `///` marker.
pub open spec fn payload_code_of(e: ElementView) -> Seq<char> {
    let c = if e.id.1 == ItemKind::Mod {
        replace_all(module_docs(lines_of(e.code)), "//!"@, Seq::empty())
    } else {
        e.code
    };
    replace_all(c, "///"@, Seq::empty())
}

/// The text to embed for `code_element`.
pub fn embedding_text(code_element: &CodeElement) -> (r: String)
    ensures
        r@ == embedding_text_of(code_element@),
{
    if code_element.code_element_id.kind == ItemKind::Mod {
        extract_documentation(code_element.code.as_str())
    } else {
        code_element.code.clone()
    }
}

/// The code to store with `code_element`.
pub fn payload_code(code_element: &CodeElement) -> (r: String)
    ensures
        r@ == payload_code_of(code_element@),
{
    proof {
        reveal_strlit("//!");
        reveal_strlit("///");
        reveal_strlit("");
        assert(""@ =~= Seq::<char>::empty());
    }
    let c = if code_element.code_element_id.kind == ItemKind::Mod {
        let docs = extract_documentation(code_element.code.as_str());
        replace_chars(chars_of(docs.as_str()).as_slice(), chars_of("//!").as_slice(), chars_of("").as_slice())
    } else {
        chars_of(code_element.code.as_str())
    };
    let cleaned = replace_chars(c.as_slice(), chars_of("///").as_slice(), chars_of("").as_slice());
    string_of(cleaned.as_slice())
}

/// The elements of all files, file after file.
pub fn collect_elements(code_files: &Vec<CodeFile>) -> (r: Vec<CodeElement>)
    ensures
        element_views(r@) == file_elements(code_files@),
{
    let ghost files = code_files@;
    let mut total: Vec<CodeElement> = Vec::new();
    assert(files.take(0) =~= Seq::<CodeFile>::empty());
    for f in 0..code_files.len()
        invariant
            files == code_files@,
            element_views(total@) == file_elements(files.take(f as int)),
    {
        let elements = &code_files[f].elements;
        let ghost base = element_views(total@);
        for e in 0..elements.len()
            invariant
                elements == code_files@[f as int].elements,
                element_views(total@) == base + element_views(elements@).take(e as int),
        {
            let c = elements[e].clone();
            let ghost prev = total@;
            total.push(c);
            assert(element_views(total@) =~= element_views(prev).push(c@));
            assert(element_views(elements@).take(e + 1) =~= element_views(elements@).take(e as int).push(c@));
        }
        proof {
            assert(files.take(f + 1).drop_last() =~= files.take(f as int));
            assert(element_views(elements@).take(elements.len() as int) =~= element_views(elements@));
        }
    }
    assert(files.take(files.len() as int) =~= files);
    total
}

/// The admission gate of an upload of `total` elements, element by element
/// in order: with a `limit`, at most that many uploads run at once and a
/// failure stops none of the others; without one, uploads run one after
/// another and the first failure ends the run. The run reports the first
/// failure once every started upload has settled.
#[derive(Debug)]
pub struct EmbedGate {
    pub limit: Option<usize>,
    pub total: usize,
    pub started: usize,
    pub finished: usize,
    pub failures: usize,
    pub first_failure: Option<usize>,
}

impl EmbedGate {
    /// The counts agree: no more finished than started, no more started than
    /// elements, no more running than the limit allows.
    pub open spec fn wf(&self) -> bool {
        &&& self.finished <= self.started <= self.total
        &&& self.failures <= self.finished
        &&& (self.first_failure is Some <==> self.failures > 0)
        &&& (self.first_failure matches Some(i) ==> i < self.started)
        &&& match self.limit {
            Some(n) => n > 0 && self.started - self.finished <= n,
            None => self.started - self.finished <= 1 && (self.failures > 0 ==> self.started == self.finished),
        }
    }

    /// Another upload may start now.
    pub open spec fn may_start(&self) -> bool {
        &&& self.started < self.total
        &&& match self.limit {
            Some(n) => self.started - self.finished < n,
            None => self.started == self.finished && self.failures == 0,
        }
    }

    /// Nothing runs and nothing more will start.
    pub open spec fn settled(&self) -> bool {
        self.finished == self.started && !self.may_start()
    }

    pub fn new(total: usize, limit: Option<usize>) -> (r: Self)
        requires
            limit != Some(0usize),
        ensures
            r.wf(),
            r.total == total,
            r.limit == limit,
            r.started == 0,
            r.finished == 0,
            r.failures == 0,
    {
        EmbedGate { limit, total, started: 0, finished: 0, failures: 0, first_failure: None }
    }

    pub fn can_start(&self) -> (r: bool)
        requires
            self.wf(),
        ensures
            r == self.may_start(),
    {
        if self.started >= self.total {
            return false;
        }
        match self.limit {
            Some(n) => self.started - self.finished < n,
            None => self.started == self.finished && self.failures == 0,
        }
    }

    /// Admits the next upload and returns the index of its element.
    pub fn start(&mut self) -> (r: usize)
        requires
            old(self).wf(),
            old(self).may_start(),
        ensures
            final(self).wf(),
            r == old(self).started,
            final(self).started == old(self).started + 1,
            final(self).finished == old(self).finished,
            final(self).failures == old(self).failures,
            final(self).first_failure == old(self).first_failure,
            final(self).total == old(self).total,
            final(self).limit == old(self).limit,
    {
        let i = self.started;
        self.started = self.started + 1;
        i
    }

    /// Records that the upload of element `index` has settled, well or not.
    pub fn finish(&mut self, index: usize, ok: bool)
        requires
            old(self).wf(),
            old(self).finished < old(self).started,
            index < old(self).started,
        ensures
            final(self).wf(),
            final(self).finished == old(self).finished + 1,
            final(self).started == old(self).started,
            final(self).total == old(self).total,
            final(self).limit == old(self).limit,
            final(self).failures == old(self).failures + if ok { 0int } else { 1int },
            final(self).first_failure == if ok || old(self).first_failure is Some {
                old(self).first_failure
            } else {
                Some(index)
            },
    {
        self.finished = self.finished + 1;
        if !ok {
            self.failures = self.failures + 1;
            if self.first_failure.is_none() {
                self.first_failure = Some(index);
            }
        }
    }

    pub fn is_settled(&self) -> (r: bool)
        requires
            self.wf(),
        ensures
            r == self.settled(),
    {
        self.finished == self.started && !self.can_start()
    }

    /// The result of a settled run: the number of uploads made, or the index
    /// of the first element whose upload failed.
    pub fn outcome(&self) -> (r: Result<usize, usize>)
        requires
            self.wf(),
        ensures
            self.failures == 0 ==> r == Ok::<usize, usize>(self.started),
            self.failures > 0 ==> r == Err::<usize, usize>(self.first_failure->0),
    {
        match self.first_failure {
            Some(i) => Err(i),
            None => Ok(self.started),
        }
    }
}

/// A bounded run, once settled, has started the upload of every element,
/// whatever failed on the way; an unbounded one has, unless one failed.
pub proof fn lemma_settled_gate_started_all(g: EmbedGate)
    requires
        g.wf(),
        g.settled(),
    ensures
        g.limit is Some ==> g.started == g.total,
        g.limit is None && g.failures == 0 ==> g.started == g.total,
{
}

} // verus!
