//! Formatting generated documentation and splicing it into source lines.

use vstd::prelude::*;

use crate::models::{element_views, kind_name, CodeElement, DocumentedCodeElement, ElementView, ItemKind};
use crate::parsing::{clamp, is_rust_file, relative_location, relative_location_of};
use crate::text::{
    chars_of, contains_chars, contains_seq, join_lines, join_range, lines_of, push_str_chars, split_lines,
    string_of, views,
};

verus! {

/// The prose of a documentation record: for a function its description, the
/// error and panic sections where they apply, and its examples.
pub open spec fn doc_text(r: DocumentedCodeElement) -> Seq<char> {
    if r.kind@ == "fn"@ {
        r.general_description@ + (if r.error_possible {
            "\n\n# Errors \n\n"@ + r.error_section@
        } else {
            Seq::empty()
        }) + (if r.panic_possible {
            "\n\n# Panics \n\n"@ + r.panic_section@
        } else {
            Seq::empty()
        }) + " \n\n# Examples \n\n"@ + r.example_section@
    } else {
        r.general_description@
    }
}

/// The comment marker of a record: inner documentation for a module, outer
/// documentation otherwise.
pub open spec fn doc_marker(r: DocumentedCodeElement) -> Seq<char> {
    if r.kind@ == "mod"@ {
        "//! "@
    } else {
        "/// "@
    }
}

/// The comment lines of a record: each line of its prose behind its marker.
pub open spec fn doc_lines(r: DocumentedCodeElement) -> Seq<Seq<char>> {
    lines_of(doc_text(r)).map_values(|l: Seq<char>| doc_marker(r) + l)
}

/// The lines spliced into a file for a record: its comment lines, or one
/// empty line where there are none.
pub open spec fn doc_block(r: DocumentedCodeElement) -> Seq<Seq<char>> {
    if doc_lines(r).len() == 0 {
        seq![Seq::empty()]
    } else {
        doc_lines(r)
    }
}

/// The views of an optional list of strings.
pub open spec fn opt_views(o: Option<Vec<String>>) -> Option<Seq<Seq<char>>> {
    match o {
        Some(v) => Some(views(v@)),
        None => None,
    }
}

fn doc_text_exec(raw: &DocumentedCodeElement) -> (r: Vec<char>)
    ensures
        r@ == doc_text(*raw),
{
    proof {
        reveal_strlit("\n\n# Errors \n\n");
        reveal_strlit("\n\n# Panics \n\n");
        reveal_strlit(" \n\n# Examples \n\n");
    }
    let mut out = chars_of(raw.general_description.as_str());
    if raw.kind == "fn".to_string() {
        let ghost g = out@;
        let ghost e: Seq<char> = if raw.error_possible { "\n\n# Errors \n\n"@ + raw.error_section@ } else { Seq::empty() };
        let ghost p: Seq<char> = if raw.panic_possible { "\n\n# Panics \n\n"@ + raw.panic_section@ } else { Seq::empty() };
        if raw.error_possible {
            push_str_chars(&mut out, "\n\n# Errors \n\n");
            push_str_chars(&mut out, raw.error_section.as_str());
        }
        assert(out@ =~= g + e);
        if raw.panic_possible {
            push_str_chars(&mut out, "\n\n# Panics \n\n");
            push_str_chars(&mut out, raw.panic_section.as_str());
        }
        assert(out@ =~= g + e + p);
        push_str_chars(&mut out, " \n\n# Examples \n\n");
        push_str_chars(&mut out, raw.example_section.as_str());
        assert(out@ =~= g + e + p + " \n\n# Examples \n\n"@ + raw.example_section@);
    }
    out
}

/// The comment lines of the record `raw`.
pub fn documentation_lines(raw: &DocumentedCodeElement) -> (r: Vec<String>)
    ensures
        views(r@) == doc_lines(*raw),
{
    let text = doc_text_exec(raw);
    let lines = split_lines(string_of(text.as_slice()).as_str());
    let marker: &str = if raw.kind == "mod".to_string() {
        "//! "
    } else {
        "/// "
    };
    assert(marker@ == doc_marker(*raw));
    let mut out: Vec<String> = Vec::new();
    for i in 0..lines.len()
        invariant
            marker@ == doc_marker(*raw),
            views(lines@) == lines_of(doc_text(*raw)),
            out.len() == i,
            forall|j: int| 0 <= j < i ==> (#[trigger] out@[j])@ == marker@ + lines@[j]@,
    {
        let mut line = marker.to_string();
        line.append(lines[i].as_str());
        out.push(line);
    }
    proof {
        assert(views(out@) =~= doc_lines(*raw)) by {
            assert forall|j: int| 0 <= j < out.len() implies views(out@)[j] == doc_lines(*raw)[j] by {
                assert(views(lines@)[j] == lines@[j]@);
            }
        }
    }
    out
}

fn clone_opt_strings(o: &Option<Vec<String>>) -> (r: Option<Vec<String>>)
    ensures
        opt_views(r) == opt_views(*o),
{
    match o {
        Some(v) => Some(crate::models::clone_strings(v)),
        None => None,
    }
}

/// The documentation of `raw` as comment text, with its per-field descriptions.
pub fn documentation_formatter(raw: &DocumentedCodeElement) -> (r: (String, Option<Vec<String>>))
    ensures
        r.0@ == join_lines(doc_lines(*raw)),
        opt_views(r.1) == opt_views(raw.fields_or_variants_descriptions),
{
    let lines = documentation_lines(raw);
    let text = join_range(lines.as_slice(), 0, lines.len());
    assert(views(lines@).subrange(0, lines.len() as int) =~= views(lines@));
    (text, clone_opt_strings(&raw.fields_or_variants_descriptions))
}

/// Element `e` is the one that the record `r` documents.
pub open spec fn documents(r: DocumentedCodeElement, e: ElementView) -> bool {
    e.id.0 == r.ident@ && kind_name(e.id.1) == r.kind@ && e.id.2 == r.location@
}

/// The first line of the first element that `r` documents, if there is one
/// with a line.
pub open spec fn start_of(es: Seq<ElementView>, r: DocumentedCodeElement) -> Option<usize>
    decreases es.len(),
{
    if es.len() == 0 {
        None
    } else if documents(r, es[0]) {
        if es[0].line_start.len() > 0 {
            Some(es[0].line_start[0])
        } else {
            None
        }
    } else {
        start_of(es.drop_first(), r)
    }
}

/// The first line of the element that `raw_documented_code_element` documents.
pub fn find_start(code_elements: &[CodeElement], raw_documented_code_element: &DocumentedCodeElement) -> (r: Option<usize>)
    ensures
        r == start_of(element_views(code_elements@), *raw_documented_code_element),
{
    let ghost es = element_views(code_elements@);
    let mut i: usize = 0;
    assert(es.subrange(0, es.len() as int) =~= es);
    while i < code_elements.len()
        invariant
            es == element_views(code_elements@),
            i <= code_elements.len(),
            start_of(es.subrange(i as int, es.len() as int), *raw_documented_code_element) == start_of(es, *raw_documented_code_element),
        decreases code_elements.len() - i,
    {
        let e = &code_elements[i];
        let ghost rest = es.subrange(i as int, es.len() as int);
        assert(rest[0] == e@);
        assert(rest.drop_first() =~= es.subrange(i + 1, es.len() as int));
        if e.code_element_id.ident == raw_documented_code_element.ident
            && e.code_element_id.kind.to_string() == raw_documented_code_element.kind
            && e.code_element_id.location == raw_documented_code_element.location {
            if e.line_start.len() > 0 {
                return Some(e.line_start[0]);
            } else {
                return None;
            }
        }
        i = i + 1;
    }
    None
}


/// A splice already made: at which index, how many lines, and whether they
/// were a module's inner documentation.
pub type Splice = (usize, usize, bool);

/// `a + b`, saturating at the largest `usize`.
pub open spec fn sat_add(a: int, b: int) -> int {
    if a + b > usize::MAX {
        usize::MAX as int
    } else {
        a + b
    }
}

/// Where the line that stood at index `t` of the original file stands after
/// the splices `done`, in order. A splice moves the lines after its index; it
/// moves the line at its index too when it was inner documentation, which
/// goes below the module's opening line.
pub open spec fn shifted(t: int, done: Seq<Splice>) -> int
    decreases done.len(),
{
    if done.len() == 0 {
        t
    } else {
        let t1 = shifted(t, done.drop_last());
        let x = done.last();
        if t1 > x.0 || (t1 == x.0 && x.2) {
            sat_add(t1, x.1 as int)
        } else {
            t1
        }
    }
}

/// `lines` with `block` put in at index `at`.
pub open spec fn spliced(lines: Seq<Seq<char>>, at: int, block: Seq<Seq<char>>) -> Seq<Seq<char>> {
    lines.take(at) + block + lines.skip(at)
}

/// The lines of a file after the records `recs` have been applied in order,
/// each above the first line of the element it documents in the file as it
/// was parsed (`es`), with the splices made so far. Records whose location is
/// not within `file_location`, or whose element is not found, are skipped.
pub open spec fn apply_docs(
    lines: Seq<Seq<char>>,
    es: Seq<ElementView>,
    recs: Seq<DocumentedCodeElement>,
    file_location: Seq<char>,
) -> (Seq<Seq<char>>, Seq<Splice>)
    decreases recs.len(),
{
    if recs.len() == 0 {
        (lines, Seq::empty())
    } else {
        let prev = apply_docs(lines, es, recs.drop_last(), file_location);
        let r = recs.last();
        if !contains_seq(r.location@, file_location) {
            prev
        } else {
            match start_of(es, r) {
                None => prev,
                Some(s) => {
                    let t = shifted(if s > 0 { s - 1 } else { 0 }, prev.1);
                    let at = clamp(t, 0, prev.0.len() as int);
                    let block = doc_block(r);
                    (spliced(prev.0, at, block), prev.1.push((at as usize, block.len() as usize, r.kind@ == "mod"@)))
                },
            }
        }
    }
}

/// Splicing a block of `k` lines in at index `at` leaves the lines before it
/// in place and moves every line from `at` on by exactly `k`: the element
/// documented there is found `k` lines further down, with no drift.
pub proof fn lemma_splice_shifts_lines(lines: Seq<Seq<char>>, at: int, block: Seq<Seq<char>>)
    requires
        0 <= at <= lines.len(),
    ensures
        spliced(lines, at, block).len() == lines.len() + block.len(),
        forall|j: int| 0 <= j < at ==> #[trigger] spliced(lines, at, block)[j] == lines[j],
        forall|j: int| at <= j < lines.len() ==> spliced(lines, at, block)[j + block.len()] == #[trigger] lines[j],
        forall|j: int| 0 <= j < block.len() ==> spliced(lines, at, block)[at + j] == #[trigger] block[j],
{
}

/// Documenting one element of a file whose first line `s` lies within the
/// file puts its block right above that line, which then stands exactly the
/// block's length further down.
pub proof fn lemma_documented_line_moves_by_block(
    lines: Seq<Seq<char>>,
    es: Seq<ElementView>,
    r: DocumentedCodeElement,
    file_location: Seq<char>,
    s: usize,
)
    requires
        contains_seq(r.location@, file_location),
        start_of(es, r) == Some(s),
        1 <= s <= lines.len(),
    ensures
        ({
            let out = apply_docs(lines, es, seq![r], file_location).0;
            &&& out.len() == lines.len() + doc_block(r).len()
            &&& out[s - 1 + doc_block(r).len()] == lines[s - 1]
            &&& forall|j: int| 0 <= j < doc_block(r).len() ==> out[s - 1 + j] == #[trigger] doc_block(r)[j]
        }),
{
    let recs = seq![r];
    assert(recs.drop_last() =~= Seq::<DocumentedCodeElement>::empty());
    assert(recs.last() == r);
    assert(apply_docs(lines, es, recs.drop_last(), file_location) == (lines, Seq::<Splice>::empty()));
    assert(shifted(s - 1, Seq::<Splice>::empty()) == s - 1);
    assert(apply_docs(lines, es, recs, file_location).0 == spliced(lines, s - 1, doc_block(r)));
    lemma_splice_shifts_lines(lines, s - 1, doc_block(r));
}

fn splice_lines(lines: &Vec<String>, at: usize, block: &Vec<String>) -> (r: Vec<String>)
    requires
        at <= lines.len(),
    ensures
        views(r@) == spliced(views(lines@), at as int, views(block@)),
{
    let mut r: Vec<String> = Vec::new();
    for i in 0..at
        invariant
            at <= lines.len(),
            views(r@) == views(lines@).take(i as int),
    {
        let c = lines[i].clone();
        let ghost prev = r@;
        r.push(c);
        assert(views(r@) =~= views(prev).push(c@));
        assert(views(r@) =~= views(lines@).take(i + 1));
    }
    let ghost head = views(r@);
    for i in 0..block.len()
        invariant
            views(r@) == head + views(block@).take(i as int),
    {
        let c = block[i].clone();
        let ghost prev = r@;
        r.push(c);
        assert(views(r@) =~= views(prev).push(c@));
        assert(views(r@) =~= head + views(block@).take(i + 1));
    }
    assert(views(block@).take(block.len() as int) =~= views(block@));
    let ghost mid = views(r@);
    for i in at..lines.len()
        invariant
            at <= lines.len(),
            views(r@) == mid + views(lines@).subrange(at as int, i as int),
    {
        let c = lines[i].clone();
        let ghost prev = r@;
        r.push(c);
        assert(views(r@) =~= views(prev).push(c@));
        assert(views(r@) =~= mid + views(lines@).subrange(at as int, i + 1));
    }
    assert(views(r@) =~= spliced(views(lines@), at as int, views(block@)));
    r
}

/// Puts the documentation records into the lines of the source file at
/// `file_to_document_path`, whose elements as parsed are `code_elements`.
/// Records are applied in order; each goes above the first line of its
/// element, where the splices made before it have moved that line.
pub fn put_documentation_inside_repository(
    file_to_document_path: &str,
    code_lines: Vec<String>,
    code_elements: &Vec<CodeElement>,
    raw_documented_code_elements: &Vec<DocumentedCodeElement>,
) -> (r: Vec<String>)
    ensures
        !is_rust_file(file_to_document_path@) ==> views(r@) == views(code_lines@),
        is_rust_file(file_to_document_path@) ==> views(r@) == apply_docs(
            views(code_lines@),
            element_views(code_elements@),
            raw_documented_code_elements@,
            relative_location(file_to_document_path@),
        ).0,
{
    if !crate::parsing::is_rust_path(file_to_document_path) {
        return code_lines;
    }
    let location = relative_location_of(file_to_document_path);
    let location_chars = chars_of(location.as_str());
    let ghost es = element_views(code_elements@);
    let ghost recs = raw_documented_code_elements@;
    let ghost floc = location@;
    let mut lines = code_lines;
    let mut done: Vec<Splice> = Vec::new();
    assert(recs.take(0) =~= Seq::<DocumentedCodeElement>::empty());
    for i in 0..raw_documented_code_elements.len()
        invariant
            es == element_views(code_elements@),
            recs == raw_documented_code_elements@,
            floc == location@,
            location_chars@ == floc,
            apply_docs(views(code_lines@), es, recs.take(i as int), floc) == (views(lines@), done@),
    {
        let raw = &raw_documented_code_elements[i];
        proof {
            assert(recs.take(i + 1).drop_last() =~= recs.take(i as int));
            assert(recs.take(i + 1).last() == recs[i as int]);
        }
        if contains_chars(chars_of(raw.location.as_str()).as_slice(), location_chars.as_slice()) {
            match find_start(code_elements.as_slice(), raw) {
                Some(s) => {
                    let mut t: usize = if s > 0 { s - 1 } else { 0 };
                    let ghost t0 = t as int;
                    let mut j: usize = 0;
                    assert(done@.take(0) =~= Seq::<Splice>::empty());
                    while j < done.len()
                        invariant
                            j <= done.len(),
                            t as int == shifted(t0, done@.take(j as int)),
                        decreases done.len() - j,
                    {
                        let x = done[j];
                        proof {
                            assert(done@.take(j + 1).drop_last() =~= done@.take(j as int));
                            assert(done@.take(j + 1).last() == x);
                        }
                        if t > x.0 || (t == x.0 && x.2) {
                            t = if t > usize::MAX - x.1 { usize::MAX } else { t + x.1 };
                        }
                        j = j + 1;
                    }
                    assert(done@.take(j as int) =~= done@);
                    let at = if t > lines.len() { lines.len() } else { t };
                    let documentation = documentation_lines(raw);
                    let block: Vec<String> = if documentation.len() == 0 {
                        vec![String::new()]
                    } else {
                        documentation
                    };
                    assert(views(block@) =~= doc_block(*raw));
                    let inner = raw.kind == "mod".to_string();
                    lines = splice_lines(&lines, at, &block);
                    done.push((at, block.len(), inner));
                },
                None => {},
            }
        }
    }
    assert(recs.take(recs.len() as int) =~= recs);
    lines
}


/// Whether elements of `kind` are documented when `kinds_to_document` are asked for.
pub fn should_document(kind: &ItemKind, kinds_to_document: &[ItemKind]) -> (r: bool)
    ensures
        r == (kinds_to_document@.contains(*kind) || kinds_to_document@.contains(ItemKind::All)),
{
    let mut i: usize = 0;
    while i < kinds_to_document.len()
        invariant
            i <= kinds_to_document.len(),
            forall|j: int| 0 <= j < i ==> kinds_to_document@[j] != *kind && kinds_to_document@[j] != ItemKind::All,
        decreases kinds_to_document.len() - i,
    {
        if kinds_to_document[i] == *kind || kinds_to_document[i] == ItemKind::All {
            return true;
        }
        i = i + 1;
    }
    false
}

} // verus!
