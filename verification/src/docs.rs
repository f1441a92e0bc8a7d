//! Docs helpers: reading text, paragraphs and tables out of a document.
use vstd::prelude::*;
use crate::error::{concat3, concat_msg, other_outcome, GwsError};
use crate::discovery::{method_scopes, method_scopes_spec, RestDescription};
use crate::json::{
    arr1, jo1, jo2, jo3, json_bool, lemma_jo1_at, lemma_jo2_at, lemma_jo3_at, json_int, json_outcome, obj1, obj2, obj3, views, Json, JsonValue,
};
use crate::text::{
    chars_of, contains_text, decimal_text, find_text, first_match, is_first_match, same_text, string_from_chars,
    string_views, usize_text,
};

verus! {

/// A text run: its content and its start and end indices in the document.
pub type RunView = (Seq<char>, i64, i64);

/// The run of a paragraph element that holds a `textRun`, with missing
/// content read as empty and missing indices as 0.
pub open spec fn element_run(el: Json) -> Seq<RunView> {
    match el.get("textRun"@) {
        Some(tr) => seq![
            (tr.at("content"@).text_or_empty(), el.at("startIndex"@).i64_or(0), el.at(
                "endIndex"@,
            ).i64_or(0)),
        ],
        None => Seq::empty(),
    }
}

/// The runs of a list of paragraph elements, in order.
pub open spec fn runs_of_elements(els: Seq<Json>) -> Seq<RunView>
    decreases els.len(),
{
    if els.len() == 0 {
        Seq::empty()
    } else {
        runs_of_elements(els.drop_last()) + element_run(els.last())
    }
}

/// The runs of a paragraph object.
pub open spec fn paragraph_runs(p: Json) -> Seq<RunView> {
    runs_of_elements(p.at("elements"@).elems())
}

/// The runs of a structural element that holds a `paragraph` (none otherwise).
pub open spec fn para_element_runs(e: Json) -> Seq<RunView> {
    match e.get("paragraph"@) {
        Some(p) => paragraph_runs(p),
        None => Seq::empty(),
    }
}

/// The runs of the paragraphs in a list of structural elements.
pub open spec fn runs_of_paras(s: Seq<Json>) -> Seq<RunView>
    decreases s.len(),
{
    if s.len() == 0 {
        Seq::empty()
    } else {
        runs_of_paras(s.drop_last()) + para_element_runs(s.last())
    }
}

/// The runs of a list of table cells, cell after cell.
pub open spec fn runs_of_cells(cells: Seq<Json>) -> Seq<RunView>
    decreases cells.len(),
{
    if cells.len() == 0 {
        Seq::empty()
    } else {
        runs_of_cells(cells.drop_last()) + runs_of_paras(cells.last().at("content"@).elems())
    }
}

/// The runs of a list of table rows, row after row.
pub open spec fn runs_of_rows(rows: Seq<Json>) -> Seq<RunView>
    decreases rows.len(),
{
    if rows.len() == 0 {
        Seq::empty()
    } else {
        runs_of_rows(rows.drop_last()) + runs_of_cells(rows.last().at("tableCells"@).elems())
    }
}

/// The runs of a top-level structural element: those of its paragraph, then
/// those of its table.
pub open spec fn block_runs(e: Json) -> Seq<RunView> {
    para_element_runs(e) + match e.get("table"@) {
        Some(t) => runs_of_rows(t.at("tableRows"@).elems()),
        None => Seq::empty(),
    }
}

/// The runs of a list of top-level structural elements.
pub open spec fn runs_of_blocks(s: Seq<Json>) -> Seq<RunView>
    decreases s.len(),
{
    if s.len() == 0 {
        Seq::empty()
    } else {
        runs_of_blocks(s.drop_last()) + block_runs(s.last())
    }
}

/// The body content of a document: `doc.body.content` as an array.
pub open spec fn body_content(doc: Json) -> Seq<Json> {
    doc.at("body"@).at("content"@).elems()
}

/// All text runs of a document body, including those inside tables.
pub open spec fn document_runs(doc: Json) -> Seq<RunView> {
    runs_of_blocks(body_content(doc))
}

/// The views of runs held as strings.
pub open spec fn run_views(v: Seq<(String, i64, i64)>) -> Seq<RunView> {
    Seq::new(v.len(), |i: int| (v[i].0@, v[i].1, v[i].2))
}

proof fn lemma_run_views_push(v: Seq<(String, i64, i64)>, x: (String, i64, i64))
    ensures
        run_views(v.push(x)) == run_views(v).push((x.0@, x.1, x.2)),
{
    assert(run_views(v.push(x)) =~= run_views(v).push((x.0@, x.1, x.2)));
}

fn opt_i64(v: &JsonValue, d: i64) -> (r: i64)
    ensures
        r == v@.i64_or(d),
{
    match v.as_i64() {
        Some(i) => i,
        None => d,
    }
}

fn text_or_empty(v: &JsonValue) -> (r: String)
    ensures
        r@ == v@.text_or_empty(),
{
    match v.as_str() {
        Some(s) => String::from_str(s),
        None => String::new(),
    }
}

fn push_paragraph_runs(runs: &mut Vec<(String, i64, i64)>, paragraph: &JsonValue)
    ensures
        run_views(final(runs)@) == run_views(old(runs)@) + paragraph_runs(paragraph@),
{
    let ghost init = run_views(runs@);
    if let Some(elements) = paragraph.at_key("elements").as_array() {
        let ghost els = views(elements@);
        assert(els.take(0) =~= Seq::<Json>::empty());
        let mut i: usize = 0;
        while i < elements.len()
            invariant
                i <= elements.len(),
                els == views(elements@),
                run_views(runs@) == init + runs_of_elements(els.take(i as int)),
            decreases elements.len() - i,
        {
            let el = &elements[i];
            assert(els.take(i + 1).drop_last() =~= els.take(i as int));
            assert(els[i as int] == el@);
            if let Some(tr) = el.get("textRun") {
                let text = text_or_empty(tr.at_key("content"));
                let start = opt_i64(el.at_key("startIndex"), 0);
                let end = opt_i64(el.at_key("endIndex"), 0);
                proof {
                    lemma_run_views_push(runs@, (text, start, end));
                }
                runs.push((text, start, end));
            }
            i = i + 1;
        }
        assert(els.take(i as int) =~= els);
    } else {
        assert(paragraph@.at("elements"@).elems().len() == 0);
        assert(run_views(runs@) =~= init + paragraph_runs(paragraph@));
    }
}

fn push_para_element_runs(runs: &mut Vec<(String, i64, i64)>, e: &JsonValue)
    ensures
        run_views(final(runs)@) == run_views(old(runs)@) + para_element_runs(e@),
{
    if let Some(paragraph) = e.get("paragraph") {
        push_paragraph_runs(runs, paragraph);
    } else {
        assert(run_views(runs@) =~= run_views(runs@) + para_element_runs(e@));
    }
}

fn push_paras_runs(runs: &mut Vec<(String, i64, i64)>, content: &JsonValue)
    ensures
        run_views(final(runs)@) == run_views(old(runs)@) + runs_of_paras(content@.elems()),
{
    let ghost init = run_views(runs@);
    if let Some(paras) = content.as_array() {
        let ghost ps = views(paras@);
        assert(ps.take(0) =~= Seq::<Json>::empty());
        let mut i: usize = 0;
        while i < paras.len()
            invariant
                i <= paras.len(),
                ps == views(paras@),
                run_views(runs@) == init + runs_of_paras(ps.take(i as int)),
            decreases paras.len() - i,
        {
            assert(ps.take(i + 1).drop_last() =~= ps.take(i as int));
            assert(ps[i as int] == paras@[i as int]@);
            push_para_element_runs(runs, &paras[i]);
            i = i + 1;
        }
        assert(ps.take(i as int) =~= ps);
    } else {
        assert(run_views(runs@) =~= init + runs_of_paras(content@.elems()));
    }
}

fn push_cells_runs(runs: &mut Vec<(String, i64, i64)>, cells: &JsonValue)
    ensures
        run_views(final(runs)@) == run_views(old(runs)@) + runs_of_cells(cells@.elems()),
{
    let ghost init = run_views(runs@);
    if let Some(cs) = cells.as_array() {
        let ghost vs = views(cs@);
        assert(vs.take(0) =~= Seq::<Json>::empty());
        let mut i: usize = 0;
        while i < cs.len()
            invariant
                i <= cs.len(),
                vs == views(cs@),
                run_views(runs@) == init + runs_of_cells(vs.take(i as int)),
            decreases cs.len() - i,
        {
            assert(vs.take(i + 1).drop_last() =~= vs.take(i as int));
            assert(vs[i as int] == cs@[i as int]@);
            push_paras_runs(runs, cs[i].at_key("content"));
            i = i + 1;
        }
        assert(vs.take(i as int) =~= vs);
    } else {
        assert(run_views(runs@) =~= init + runs_of_cells(cells@.elems()));
    }
}

fn push_rows_runs(runs: &mut Vec<(String, i64, i64)>, rows: &JsonValue)
    ensures
        run_views(final(runs)@) == run_views(old(runs)@) + runs_of_rows(rows@.elems()),
{
    let ghost init = run_views(runs@);
    if let Some(rs) = rows.as_array() {
        let ghost vs = views(rs@);
        assert(vs.take(0) =~= Seq::<Json>::empty());
        let mut i: usize = 0;
        while i < rs.len()
            invariant
                i <= rs.len(),
                vs == views(rs@),
                run_views(runs@) == init + runs_of_rows(vs.take(i as int)),
            decreases rs.len() - i,
        {
            assert(vs.take(i + 1).drop_last() =~= vs.take(i as int));
            assert(vs[i as int] == rs@[i as int]@);
            push_cells_runs(runs, rs[i].at_key("tableCells"));
            i = i + 1;
        }
        assert(vs.take(i as int) =~= vs);
    } else {
        assert(run_views(runs@) =~= init + runs_of_rows(rows@.elems()));
    }
}

/// All text runs of a document body as `(content, startIndex, endIndex)`:
/// those of each paragraph, and those of the paragraphs in each table cell.
pub fn extract_text_runs(doc: &JsonValue) -> (r: Vec<(String, i64, i64)>)
    ensures
        run_views(r@) == document_runs(doc@),
{
    let mut runs: Vec<(String, i64, i64)> = Vec::new();
    assert(run_views(runs@) =~= Seq::<RunView>::empty());
    if let Some(content) = doc.at_key("body").at_key("content").as_array() {
        let ghost vs = views(content@);
        assert(vs.take(0) =~= Seq::<Json>::empty());
        let mut i: usize = 0;
        while i < content.len()
            invariant
                i <= content.len(),
                vs == views(content@),
                run_views(runs@) == runs_of_blocks(vs.take(i as int)),
            decreases content.len() - i,
        {
            assert(vs.take(i + 1).drop_last() =~= vs.take(i as int));
            assert(vs[i as int] == content@[i as int]@);
            let element = &content[i];
            let ghost before = run_views(runs@);
            push_para_element_runs(&mut runs, element);
            if let Some(table) = element.get("table") {
                push_rows_runs(&mut runs, table.at_key("tableRows"));
            }
            assert(run_views(runs@) =~= before + block_runs(element@));
            i = i + 1;
        }
        assert(vs.take(i as int) =~= vs);
    }
    runs
}

/// The text of a paragraph element: the content of its `textRun`, if any.
pub open spec fn element_text(el: Json) -> Seq<char> {
    match el.get("textRun"@) {
        Some(tr) => tr.at("content"@).text_or_empty(),
        None => Seq::empty(),
    }
}

/// The text of a list of paragraph elements, joined.
pub open spec fn text_of_elements(els: Seq<Json>) -> Seq<char>
    decreases els.len(),
{
    if els.len() == 0 {
        Seq::empty()
    } else {
        text_of_elements(els.drop_last()) + element_text(els.last())
    }
}

/// The full text of a paragraph object.
pub open spec fn paragraph_text(p: Json) -> Seq<char> {
    text_of_elements(p.at("elements"@).elems())
}

/// The paragraph of a structural element, as `(text, startIndex, endIndex)`,
/// when it holds one whose text contains `search`.
pub open spec fn paragraph_hit(e: Json, search: Seq<char>) -> Seq<RunView> {
    match e.get("paragraph"@) {
        Some(p) => if contains_text(paragraph_text(p), search) {
            seq![(paragraph_text(p), e.at("startIndex"@).i64_or(0), e.at("endIndex"@).i64_or(0))]
        } else {
            Seq::empty()
        },
        None => Seq::empty(),
    }
}

/// The paragraphs among `s` whose text contains `search`, in order.
pub open spec fn paragraph_hits(s: Seq<Json>, search: Seq<char>) -> Seq<RunView>
    decreases s.len(),
{
    if s.len() == 0 {
        Seq::empty()
    } else {
        paragraph_hits(s.drop_last(), search) + paragraph_hit(s.last(), search)
    }
}

/// The paragraphs of a list of table cells whose text contains `search`,
/// cell after cell.
pub open spec fn cells_hits(cells: Seq<Json>, search: Seq<char>) -> Seq<RunView>
    decreases cells.len(),
{
    if cells.len() == 0 {
        Seq::empty()
    } else {
        cells_hits(cells.drop_last(), search) + paragraph_hits(
            cells.last().at("content"@).elems(),
            search,
        )
    }
}

/// The paragraphs of a list of table rows whose text contains `search`, row
/// after row.
pub open spec fn rows_hits(rows: Seq<Json>, search: Seq<char>) -> Seq<RunView>
    decreases rows.len(),
{
    if rows.len() == 0 {
        Seq::empty()
    } else {
        rows_hits(rows.drop_last(), search) + cells_hits(rows.last().at("tableCells"@).elems(), search)
    }
}

/// The paragraphs of a top-level structural element whose text contains
/// `search`: its own paragraph, then those in the cells of its table.
pub open spec fn block_hits(e: Json, search: Seq<char>) -> Seq<RunView> {
    paragraph_hit(e, search) + match e.get("table"@) {
        Some(t) => rows_hits(t.at("tableRows"@).elems(), search),
        None => Seq::empty(),
    }
}

/// The paragraphs of a list of top-level structural elements whose text
/// contains `search`, in document order.
pub open spec fn blocks_hits(s: Seq<Json>, search: Seq<char>) -> Seq<RunView>
    decreases s.len(),
{
    if s.len() == 0 {
        Seq::empty()
    } else {
        blocks_hits(s.drop_last(), search) + block_hits(s.last(), search)
    }
}

/// All paragraphs of a document body whose text contains `search`, those in
/// table cells included, in document order.
pub open spec fn document_hits(doc: Json, search: Seq<char>) -> Seq<RunView> {
    blocks_hits(body_content(doc), search)
}

fn paragraph_text_of(paragraph: &JsonValue) -> (r: String)
    ensures
        r@ == paragraph_text(paragraph@),
{
    let mut text = String::new();
    if let Some(elements) = paragraph.at_key("elements").as_array() {
        let ghost els = views(elements@);
        assert(els.take(0) =~= Seq::<Json>::empty());
        let mut i: usize = 0;
        while i < elements.len()
            invariant
                i <= elements.len(),
                els == views(elements@),
                text@ == text_of_elements(els.take(i as int)),
            decreases elements.len() - i,
        {
            let el = &elements[i];
            assert(els.take(i + 1).drop_last() =~= els.take(i as int));
            assert(els[i as int] == el@);
            if let Some(tr) = el.get("textRun") {
                match tr.at_key("content").as_str() {
                    Some(c) => text.append(c),
                    None => {
                        assert(text@ =~= text@ + Seq::<char>::empty());
                    },
                }
            } else {
                assert(text@ =~= text@ + Seq::<char>::empty());
            }
            i = i + 1;
        }
        assert(els.take(i as int) =~= els);
    }
    text
}

fn push_paragraph_hit(results: &mut Vec<(String, i64, i64)>, element: &JsonValue, needle: &Vec<char>)
    ensures
        run_views(final(results)@) == run_views(old(results)@) + paragraph_hit(element@, needle@),
{
    if let Some(paragraph) = element.get("paragraph") {
        let start = opt_i64(element.at_key("startIndex"), 0);
        let end = opt_i64(element.at_key("endIndex"), 0);
        let para_text = paragraph_text_of(paragraph);
        let hay = chars_of(para_text.as_str());
        if find_text(&hay, needle).is_some() {
            proof {
                lemma_run_views_push(results@, (para_text, start, end));
            }
            results.push((para_text, start, end));
        } else {
            assert(run_views(results@) =~= run_views(results@) + paragraph_hit(element@, needle@));
        }
    } else {
        assert(run_views(results@) =~= run_views(results@) + paragraph_hit(element@, needle@));
    }
}

fn push_paras_hits(results: &mut Vec<(String, i64, i64)>, content: &JsonValue, needle: &Vec<char>)
    ensures
        run_views(final(results)@) == run_views(old(results)@) + paragraph_hits(
            content@.elems(),
            needle@,
        ),
{
    let ghost init = run_views(results@);
    if let Some(elements) = content.as_array() {
        let ghost vs = views(elements@);
        assert(vs.take(0) =~= Seq::<Json>::empty());
        let mut i: usize = 0;
        while i < elements.len()
            invariant
                i <= elements.len(),
                vs == views(elements@),
                run_views(results@) == init + paragraph_hits(vs.take(i as int), needle@),
            decreases elements.len() - i,
        {
            assert(vs.take(i + 1).drop_last() =~= vs.take(i as int));
            assert(vs[i as int] == elements@[i as int]@);
            push_paragraph_hit(results, &elements[i], needle);
            i = i + 1;
        }
        assert(vs.take(i as int) =~= vs);
    } else {
        assert(run_views(results@) =~= init + paragraph_hits(content@.elems(), needle@));
    }
}

fn push_cells_hits(results: &mut Vec<(String, i64, i64)>, cells: &JsonValue, needle: &Vec<char>)
    ensures
        run_views(final(results)@) == run_views(old(results)@) + cells_hits(cells@.elems(), needle@),
{
    let ghost init = run_views(results@);
    if let Some(cs) = cells.as_array() {
        let ghost vs = views(cs@);
        assert(vs.take(0) =~= Seq::<Json>::empty());
        let mut i: usize = 0;
        while i < cs.len()
            invariant
                i <= cs.len(),
                vs == views(cs@),
                run_views(results@) == init + cells_hits(vs.take(i as int), needle@),
            decreases cs.len() - i,
        {
            assert(vs.take(i + 1).drop_last() =~= vs.take(i as int));
            assert(vs[i as int] == cs@[i as int]@);
            push_paras_hits(results, cs[i].at_key("content"), needle);
            i = i + 1;
        }
        assert(vs.take(i as int) =~= vs);
    } else {
        assert(run_views(results@) =~= init + cells_hits(cells@.elems(), needle@));
    }
}

fn push_rows_hits(results: &mut Vec<(String, i64, i64)>, rows: &JsonValue, needle: &Vec<char>)
    ensures
        run_views(final(results)@) == run_views(old(results)@) + rows_hits(rows@.elems(), needle@),
{
    let ghost init = run_views(results@);
    if let Some(rs) = rows.as_array() {
        let ghost vs = views(rs@);
        assert(vs.take(0) =~= Seq::<Json>::empty());
        let mut i: usize = 0;
        while i < rs.len()
            invariant
                i <= rs.len(),
                vs == views(rs@),
                run_views(results@) == init + rows_hits(vs.take(i as int), needle@),
            decreases rs.len() - i,
        {
            assert(vs.take(i + 1).drop_last() =~= vs.take(i as int));
            assert(vs[i as int] == rs@[i as int]@);
            push_cells_hits(results, rs[i].at_key("tableCells"), needle);
            i = i + 1;
        }
        assert(vs.take(i as int) =~= vs);
    } else {
        assert(run_views(results@) =~= init + rows_hits(rows@.elems(), needle@));
    }
}

/// The paragraphs of a document body whose text contains `search`, those in
/// table cells included, in document order, as `(paragraph_text, startIndex,
/// endIndex)`.
pub fn find_paragraphs_containing(doc: &JsonValue, search: &str) -> (r: Vec<(String, i64, i64)>)
    ensures
        run_views(r@) == document_hits(doc@, search@),
{
    let mut results: Vec<(String, i64, i64)> = Vec::new();
    assert(run_views(results@) =~= Seq::<RunView>::empty());
    let needle = chars_of(search);
    if let Some(content) = doc.at_key("body").at_key("content").as_array() {
        let ghost vs = views(content@);
        assert(vs.take(0) =~= Seq::<Json>::empty());
        let mut i: usize = 0;
        while i < content.len()
            invariant
                i <= content.len(),
                vs == views(content@),
                needle@ == search@,
                run_views(results@) == blocks_hits(vs.take(i as int), search@),
            decreases content.len() - i,
        {
            assert(vs.take(i + 1).drop_last() =~= vs.take(i as int));
            assert(vs[i as int] == content@[i as int]@);
            let element = &content[i];
            let ghost before = run_views(results@);
            push_paragraph_hit(&mut results, element, &needle);
            if let Some(table) = element.get("table") {
                push_rows_hits(&mut results, table.at_key("tableRows"), &needle);
            }
            assert(run_views(results@) =~= before + block_hits(element@, search@));
            i = i + 1;
        }
        assert(vs.take(i as int) =~= vs);
    }
    results
}

/// The structural elements among `s` that hold a `table`, in order.
pub open spec fn table_elements(s: Seq<Json>) -> Seq<Json>
    decreases s.len(),
{
    if s.len() == 0 {
        Seq::empty()
    } else if s.last().get("table"@) is Some {
        table_elements(s.drop_last()).push(s.last())
    } else {
        table_elements(s.drop_last())
    }
}

/// The tables of a document body as `(startIndex, table)`, with a missing
/// start index read as 0.
pub open spec fn document_tables(doc: Json) -> Seq<(i64, Json)> {
    let ts = table_elements(body_content(doc));
    Seq::new(ts.len(), |i: int| (ts[i].at("startIndex"@).i64_or(0), ts[i].at("table"@)))
}

fn table_elements_of(content: &Vec<JsonValue>) -> (r: Vec<&JsonValue>)
    ensures
        r@.len() == table_elements(views(content@)).len(),
        forall|i: int| 0 <= i < r@.len() ==> (#[trigger] r@[i])@ == table_elements(views(content@))[i],
{
    let ghost vs = views(content@);
    let mut tables: Vec<&JsonValue> = Vec::new();
    assert(vs.take(0) =~= Seq::<Json>::empty());
    let mut i: usize = 0;
    while i < content.len()
        invariant
            i <= content.len(),
            vs == views(content@),
            tables@.len() == table_elements(vs.take(i as int)).len(),
            forall|k: int|
                0 <= k < tables@.len() ==> (#[trigger] tables@[k])@ == table_elements(
                    vs.take(i as int),
                )[k],
        decreases content.len() - i,
    {
        assert(vs.take(i + 1).drop_last() =~= vs.take(i as int));
        assert(vs[i as int] == content@[i as int]@);
        if content[i].get("table").is_some() {
            tables.push(&content[i]);
        }
        i = i + 1;
    }
    assert(vs.take(i as int) =~= vs);
    tables
}

/// The tables of a document body as `(startIndex, table)`.
pub fn find_tables(doc: &JsonValue) -> (r: Vec<(i64, &JsonValue)>)
    ensures
        r@.len() == document_tables(doc@).len(),
        forall|i: int|
            0 <= i < r@.len() ==> ((#[trigger] r@[i]).0, r@[i].1@) == document_tables(doc@)[i],
{
    let mut out: Vec<(i64, &JsonValue)> = Vec::new();
    match doc.at_key("body").at_key("content").as_array() {
        Some(content) => {
            let tables = table_elements_of(content);
            let mut i: usize = 0;
            while i < tables.len()
                invariant
                    i <= tables.len(),
                    body_content(doc@) == views(content@),
                    tables@.len() == table_elements(views(content@)).len(),
                    forall|k: int|
                        0 <= k < tables@.len() ==> (#[trigger] tables@[k])@ == table_elements(
                            views(content@),
                        )[k],
                    out@.len() == i,
                    forall|k: int|
                        0 <= k < i ==> ((#[trigger] out@[k]).0, out@[k].1@) == document_tables(
                            doc@,
                        )[k],
                decreases tables.len() - i,
            {
                let t = tables[i];
                let start = opt_i64(t.at_key("startIndex"), 0);
                out.push((start, t.at_key("table")));
                i = i + 1;
            }
        },
        None => {
            assert(table_elements(body_content(doc@)).len() == 0);
        },
    }
    out
}

/// The text of a structural element that holds a `paragraph` (empty otherwise).
pub open spec fn para_element_text(e: Json) -> Seq<char> {
    match e.get("paragraph"@) {
        Some(p) => paragraph_text(p),
        None => Seq::empty(),
    }
}

/// The text of a list of structural elements, joined.
pub open spec fn text_of_paras(s: Seq<Json>) -> Seq<char>
    decreases s.len(),
{
    if s.len() == 0 {
        Seq::empty()
    } else {
        text_of_paras(s.drop_last()) + para_element_text(s.last())
    }
}

/// `s` without its trailing newlines (`trim_end_matches('\n')`).
pub open spec fn trim_newlines(s: Seq<char>) -> Seq<char>
    decreases s.len(),
{
    if s.len() > 0 && s.last() == '\n' {
        trim_newlines(s.drop_last())
    } else {
        s
    }
}

proof fn lemma_trim_newlines(s: Seq<char>)
    ensures
        trim_newlines(s).len() > 0 ==> trim_newlines(s).last() != '\n',
    decreases s.len(),
{
    if s.len() > 0 && s.last() == '\n' {
        lemma_trim_newlines(s.drop_last());
    }
}

/// The text of a table cell: its paragraphs joined, trailing newlines removed.
pub open spec fn cell_text(cell: Json) -> Seq<char> {
    trim_newlines(text_of_paras(cell.at("content"@).elems()))
}

/// The text read from a cell never ends with a newline.
pub proof fn lemma_cell_text_trimmed(cell: Json)
    ensures
        cell_text(cell).len() > 0 ==> cell_text(cell).last() != '\n',
{
    lemma_trim_newlines(text_of_paras(cell.at("content"@).elems()));
}

/// The text of a table cell, without the trailing newline that Docs adds.
pub fn extract_cell_text(cell: &JsonValue) -> (r: String)
    ensures
        r@ == cell_text(cell@),
{
    let mut text = String::new();
    if let Some(content) = cell.at_key("content").as_array() {
        let ghost vs = views(content@);
        assert(vs.take(0) =~= Seq::<Json>::empty());
        let mut i: usize = 0;
        while i < content.len()
            invariant
                i <= content.len(),
                vs == views(content@),
                text@ == text_of_paras(vs.take(i as int)),
            decreases content.len() - i,
        {
            assert(vs.take(i + 1).drop_last() =~= vs.take(i as int));
            assert(vs[i as int] == content@[i as int]@);
            if let Some(paragraph) = content[i].get("paragraph") {
                let t = paragraph_text_of(paragraph);
                text.append(t.as_str());
            } else {
                assert(text@ =~= text@ + Seq::<char>::empty());
            }
            i = i + 1;
        }
        assert(vs.take(i as int) =~= vs);
    }
    let cs = chars_of(text.as_str());
    let mut n: usize = cs.len();
    assert(cs@.take(n as int) =~= cs@);
    while n > 0 && cs[n - 1] == '\n'
        invariant
            n <= cs.len(),
            trim_newlines(cs@) == trim_newlines(cs@.take(n as int)),
        decreases n,
    {
        assert(cs@.take(n as int).drop_last() =~= cs@.take(n - 1));
        n = n - 1;
    }
    assert(trim_newlines(cs@.take(n as int)) == cs@.take(n as int));
    let mut out: Vec<char> = Vec::new();
    let mut k: usize = 0;
    while k < n
        invariant
            k <= n <= cs.len(),
            out@ == cs@.take(k as int),
        decreases n - k,
    {
        out.push(cs[k]);
        assert(cs@.take(k + 1) =~= cs@.take(k as int).push(cs@[k as int]));
        k = k + 1;
    }
    assert(text@ == cs@);
    string_from_chars(out.as_slice())
}

/// The texts of the cells of a table row.
pub open spec fn row_texts(row: Json) -> Seq<Seq<char>> {
    let cells = row.at("tableCells"@).elems();
    Seq::new(cells.len(), |j: int| cell_text(cells[j]))
}

/// The texts of the cells of a table, row by row.
pub open spec fn table_texts(table: Json) -> Seq<Seq<Seq<char>>> {
    let rows = table.at("tableRows"@).elems();
    Seq::new(rows.len(), |i: int| row_texts(rows[i]))
}

/// The length of the longest row, 0 for no rows.
pub open spec fn max_row_len(rows: Seq<Seq<Seq<char>>>) -> nat
    decreases rows.len(),
{
    if rows.len() == 0 {
        0
    } else if rows.last().len() > max_row_len(rows.drop_last()) {
        rows.last().len()
    } else {
        max_row_len(rows.drop_last())
    }
}

/// The view of a grid of strings.
pub open spec fn grid_view(v: Seq<Vec<String>>) -> Seq<Seq<Seq<char>>> {
    Seq::new(v.len(), |i: int| Seq::new(v[i]@.len(), |j: int| v[i]@[j]@))
}

fn read_row(row: &JsonValue) -> (r: Vec<String>)
    ensures
        Seq::new(r@.len(), |j: int| r@[j]@) == row_texts(row@),
{
    let mut row_data: Vec<String> = Vec::new();
    if let Some(cells) = row.at_key("tableCells").as_array() {
        let mut j: usize = 0;
        while j < cells.len()
            invariant
                j <= cells.len(),
                row@.at("tableCells"@).elems() == views(cells@),
                row_data@.len() == j,
                forall|k: int| 0 <= k < j ==> (#[trigger] row_data@[k])@ == cell_text(cells@[k]@),
            decreases cells.len() - j,
        {
            row_data.push(extract_cell_text(&cells[j]));
            j = j + 1;
        }
    }
    assert(Seq::new(row_data@.len(), |j: int| row_data@[j]@) =~= row_texts(row@));
    row_data
}

/// Reads a table into rows of cell texts, with the number of rows and the
/// length of the longest row.
pub fn read_table(table: &JsonValue) -> (r: (Vec<Vec<String>>, usize, usize))
    ensures
        grid_view(r.0@) == table_texts(table@),
        r.1 == table_texts(table@).len(),
        r.2 == max_row_len(table_texts(table@)),
{
    let mut rows_data: Vec<Vec<String>> = Vec::new();
    let mut max_cols: usize = 0;
    let ghost tt = table_texts(table@);
    if let Some(rows) = table.at_key("tableRows").as_array() {
        let mut i: usize = 0;
        while i < rows.len()
            invariant
                i <= rows.len(),
                table@.at("tableRows"@).elems() == views(rows@),
                tt == table_texts(table@),
                rows_data@.len() == i,
                forall|k: int| 0 <= k < i ==> grid_view(rows_data@)[k] == tt[k],
                max_cols == max_row_len(tt.take(i as int)),
            decreases rows.len() - i,
        {
            let row_data = read_row(&rows[i]);
            assert(tt.take(i + 1).drop_last() =~= tt.take(i as int));
            assert(tt[i as int] == row_texts(rows@[i as int]@));
            if row_data.len() > max_cols {
                max_cols = row_data.len();
            }
            let ghost prev = rows_data@;
            rows_data.push(row_data);
            assert forall|k: int| 0 <= k < i + 1 implies grid_view(rows_data@)[k] == tt[k] by {
                if k < i {
                    assert(rows_data@[k] == prev[k]);
                    assert(grid_view(prev)[k] == tt[k]);
                    assert(grid_view(rows_data@)[k] =~= grid_view(prev)[k]);
                } else {
                    assert(grid_view(rows_data@)[k] =~= tt[k]);
                }
            }
            i = i + 1;
        }
        assert(tt.take(i as int) =~= tt);
    }
    assert(grid_view(rows_data@) =~= tt);
    let row_count = rows_data.len();
    (rows_data, row_count, max_cols)
}

/// Builds the message `a`, the decimal digits of `n`, then `b`.
fn num_msg(a: &str, n: usize, b: &str) -> (r: String)
    ensures
        r@ == a@ + decimal_text(n as nat) + b@,
{
    let digits = usize_text(n);
    concat3(a, digits.as_str(), b)
}

/// The message for a table index beyond the tables of a document.
pub open spec fn table_index_msg(ti: nat, count: nat) -> Seq<char> {
    "Table index "@ + decimal_text(ti) + " not found (document has "@ + decimal_text(count)
        + " tables)"@
}

/// The tables of the body content, or the error when the body has no content.
pub open spec fn body_tables(doc: Json) -> Result<Seq<Json>, Seq<char>> {
    match doc.at("body"@).at("content"@).as_array() {
        None => Err("No body content"@),
        Some(content) => Ok(table_elements(content)),
    }
}

/// What `find_table_start_index` gives: the `startIndex` of the table element
/// at `ti` among the tables of the body, or the message of the error.
pub open spec fn table_start_spec(doc: Json, ti: usize) -> Result<i64, Seq<char>> {
    match body_tables(doc) {
        Err(m) => Err(m),
        Ok(ts) => if ti >= ts.len() {
            Err(table_index_msg(ti as nat, ts.len()))
        } else {
            match ts[ti as int].at("startIndex"@).as_i64() {
                None => Err("Table has no startIndex"@),
                Some(start) => Ok(start),
            }
        },
    }
}

/// What `get_table_row_count` gives: the number of rows of the table at `ti`,
/// or the message of the error.
pub open spec fn table_row_count_spec(doc: Json, ti: usize) -> Result<usize, Seq<char>> {
    match body_tables(doc) {
        Err(m) => Err(m),
        Ok(ts) => if ti >= ts.len() {
            Err(table_index_msg(ti as nat, ts.len()))
        } else {
            match ts[ti as int].at("table"@).at("tableRows"@).as_array() {
                None => Err("No tableRows in table"@),
                Some(rows) => Ok(rows.len() as usize),
            }
        },
    }
}

/// The table that `find_table_start_index` and `get_table_row_count` look
/// up at `ti` is the one at `ti` among the tables that `find_tables` lists:
/// the start index found is the one listed, and the row count is the number
/// of rows that `read_table` reads from it.
pub proof fn lemma_table_lookups_agree(doc: Json, ti: usize)
    ensures
        table_start_spec(doc, ti) matches Ok(s) ==> ti < document_tables(doc).len()
            && document_tables(doc)[ti as int].0 == s,
        table_row_count_spec(doc, ti) matches Ok(n) ==> ti < document_tables(doc).len() && n
            == table_texts(document_tables(doc)[ti as int].1).len() as usize,
{
}

fn tables_of_body(doc: &JsonValue) -> (r: Result<Vec<&JsonValue>, GwsError>)
    ensures
        match (r, body_tables(doc@)) {
            (Ok(v), Ok(ts)) => v@.len() == ts.len() && forall|i: int|
                0 <= i < ts.len() ==> (#[trigger] v@[i])@ == ts[i],
            (Err(GwsError::Other(m)), Err(t)) => m@ == t,
            _ => false,
        },
{
    match doc.at_key("body").at_key("content").as_array() {
        None => Err(GwsError::Other(String::from_str("No body content"))),
        Some(content) => Ok(table_elements_of(content)),
    }
}

/// The `startIndex` of the table at `table_index` (0-based) in a document.
pub fn find_table_start_index(doc_val: &JsonValue, table_index: usize) -> (r: Result<i64, GwsError>)
    ensures
        other_outcome(r, table_start_spec(doc_val@, table_index)),
{
    let tables = match tables_of_body(doc_val) {
        Ok(t) => t,
        Err(e) => {
            return Err(e);
        },
    };
    if table_index >= tables.len() {
        let head = num_msg("Table index ", table_index, " not found (document has ");
        let tail = num_msg("", tables.len(), " tables)");
        let msg = concat_msg(head.as_str(), tail.as_str());
        proof {
            reveal_strlit("");
        }
        assert(msg@ =~= table_index_msg(table_index as nat, tables.len() as nat));
        return Err(GwsError::Other(msg));
    }
    match tables[table_index].at_key("startIndex").as_i64() {
        None => Err(GwsError::Other(String::from_str("Table has no startIndex"))),
        Some(start) => Ok(start),
    }
}

/// The number of rows of the table at `table_index` (0-based) in a document.
pub fn get_table_row_count(doc_val: &JsonValue, table_index: usize) -> (r: Result<usize, GwsError>)
    ensures
        other_outcome(r, table_row_count_spec(doc_val@, table_index)),
{
    let tables = match tables_of_body(doc_val) {
        Ok(t) => t,
        Err(e) => {
            return Err(e);
        },
    };
    if table_index >= tables.len() {
        let head = num_msg("Table index ", table_index, " not found (document has ");
        let tail = num_msg("", tables.len(), " tables)");
        let msg = concat_msg(head.as_str(), tail.as_str());
        proof {
            reveal_strlit("");
        }
        assert(msg@ =~= table_index_msg(table_index as nat, tables.len() as nat));
        return Err(GwsError::Other(msg));
    }
    match tables[table_index].at_key("table").at_key("tableRows").as_array() {
        None => Err(GwsError::Other(String::from_str("No tableRows in table"))),
        Some(rows) => Ok(rows.len()),
    }
}

/// The cell at (`row`, `col`) of the table at `ti`, or the message of the
/// first step that fails.
pub open spec fn cell_lookup(doc: Json, ti: usize, row: usize, col: usize) -> Result<Json, Seq<char>> {
    match body_tables(doc) {
        Err(m) => Err(m),
        Ok(ts) => if ti >= ts.len() {
            Err("Table "@ + decimal_text(ti as nat) + " not found"@)
        } else {
            match ts[ti as int].at("table"@).at("tableRows"@).as_array() {
                None => Err("No tableRows"@),
                Some(rows) => if row >= rows.len() {
                    Err("Row "@ + decimal_text(row as nat) + " not found"@)
                } else {
                    match rows[row as int].at("tableCells"@).as_array() {
                        None => Err("No tableCells"@),
                        Some(cells) => if col >= cells.len() {
                            Err("Col "@ + decimal_text(col as nat) + " not found"@)
                        } else {
                            Ok(cells[col as int])
                        },
                    }
                },
            }
        },
    }
}

/// The inputs on which `find_cell_range` computes without overflow: the
/// first paragraph's start is below `i64::MAX` (its successor is the default
/// end) and the end is above `i64::MIN`.
pub open spec fn cell_range_ok(doc: Json, ti: usize, row: usize, col: usize) -> bool {
    match cell_lookup(doc, ti, row, col) {
        Ok(cell) => match cell.at("content"@).as_array() {
            Some(paras) => paras.len() > 0 ==> {
                let start = paras[0].at("startIndex"@).i64_or(0);
                &&& start < i64::MAX
                &&& paras.last().at("endIndex"@).i64_or((start + 1) as i64) > i64::MIN
            },
            None => true,
        },
        Err(_) => true,
    }
}

/// What `find_cell_range` gives: the start of the cell's first paragraph and
/// one before the end of its last paragraph, or the message of the error.
pub open spec fn cell_range_spec(doc: Json, ti: usize, row: usize, col: usize) -> Result<(i64, i64), Seq<char>> {
    match cell_lookup(doc, ti, row, col) {
        Err(m) => Err(m),
        Ok(cell) => match cell.at("content"@).as_array() {
            None => Err("No cell content"@),
            Some(paras) => if paras.len() == 0 {
                Err("Empty cell content"@)
            } else {
                let start = paras[0].at("startIndex"@).i64_or(0);
                let end = paras.last().at("endIndex"@).i64_or((start + 1) as i64);
                Ok((start, (end - 1) as i64))
            },
        },
    }
}

/// The content range `(start, end - 1)` of the cell at (`row`, `col`) of the
/// table at `table_index`: deleting it and inserting at `start` replaces the
/// cell's text.
pub fn find_cell_range(doc_val: &JsonValue, table_index: usize, row: usize, col: usize) -> (r: Result<(i64, i64), GwsError>)
    requires
        cell_range_ok(doc_val@, table_index, row, col),
    ensures
        other_outcome(r, cell_range_spec(doc_val@, table_index, row, col)),
{
    let tables = match tables_of_body(doc_val) {
        Ok(t) => t,
        Err(e) => {
            return Err(e);
        },
    };
    if table_index >= tables.len() {
        return Err(GwsError::Other(num_msg("Table ", table_index, " not found")));
    }
    let table_rows = match tables[table_index].at_key("table").at_key("tableRows").as_array() {
        Some(v) => v,
        None => {
            return Err(GwsError::Other(String::from_str("No tableRows")));
        },
    };
    if row >= table_rows.len() {
        return Err(GwsError::Other(num_msg("Row ", row, " not found")));
    }
    let cells = match table_rows[row].at_key("tableCells").as_array() {
        Some(v) => v,
        None => {
            return Err(GwsError::Other(String::from_str("No tableCells")));
        },
    };
    if col >= cells.len() {
        return Err(GwsError::Other(num_msg("Col ", col, " not found")));
    }
    let cell_content = match cells[col].at_key("content").as_array() {
        Some(v) => v,
        None => {
            return Err(GwsError::Other(String::from_str("No cell content")));
        },
    };
    if cell_content.len() == 0 {
        return Err(GwsError::Other(String::from_str("Empty cell content")));
    }
    let first_para = &cell_content[0];
    let last_para = &cell_content[cell_content.len() - 1];
    let start = opt_i64(first_para.at_key("startIndex"), 0);
    let end = opt_i64(last_para.at_key("endIndex"), start + 1);
    Ok((start, end - 1))
}

/// The Docs helper's subcommands.
#[derive(Debug)]
pub struct DocsHelper;

/// The body of `+write`: one `insertText` at the end of the document body.
pub open spec fn write_body_spec(text: Seq<char>) -> Json {
    jo1(
        "requests"@,
        Json::Array(
            seq![
                jo1(
                    "insertText"@,
                    jo2(
                        "text"@,
                        Json::Str(text),
                        "endOfSegmentLocation"@,
                        jo1("segmentId"@, Json::Str(""@)),
                    ),
                ),
            ],
        ),
    )
}

/// `+write` sends one request that inserts `text` at the end of the body
/// segment (segment id empty).
pub proof fn lemma_write_body_fields(text: Seq<char>)
    ensures
        write_body_spec(text).at("requests"@).as_array() matches Some(rs) && rs.len() == 1,
        write_body_spec(text).at("requests"@).at_index(0).at("insertText"@).at("text"@) == Json::Str(
            text,
        ),
        write_body_spec(text).at("requests"@).at_index(0).at("insertText"@).at(
            "endOfSegmentLocation"@,
        ).at("segmentId"@) == Json::Str(""@),
{
    reveal_strlit("text");
    reveal_strlit("endOfSegmentLocation");
    let loc = jo1("segmentId"@, Json::Str(""@));
    let ins = jo2("text"@, Json::Str(text), "endOfSegmentLocation"@, loc);
    assert("text"@.len() != "endOfSegmentLocation"@.len());
    lemma_jo1_at("requests"@, Json::Array(seq![jo1("insertText"@, ins)]));
    lemma_jo1_at("insertText"@, ins);
    lemma_jo2_at("text"@, Json::Str(text), "endOfSegmentLocation"@, loc);
    lemma_jo1_at("segmentId"@, Json::Str(""@));
}

/// Builds the `documents.batchUpdate` call of `+write`: query parameters
/// `{documentId}`, a body appending `text`, and the method's scopes.
pub fn build_write_request(document_id: &str, text: &str, doc: &RestDescription) -> (r: Result<(JsonValue, JsonValue, Vec<String>), GwsError>)
    ensures
        match (r, method_scopes_spec(*doc, "documents"@, None, "batchUpdate"@)) {
            (Ok((params, body, scopes)), Ok(s)) => {
                &&& params@ == jo1("documentId"@, Json::Str(document_id@))
                &&& body@ == write_body_spec(text@)
                &&& string_views(scopes@) == s
            },
            (Err(GwsError::Discovery(m)), Err(t)) => m@ == t,
            _ => false,
        },
{
    let scopes = match method_scopes(doc, "documents", None, "documents", "batchUpdate") {
        Ok(s) => s,
        Err(e) => {
            return Err(e);
        },
    };
    let params = obj1("documentId", JsonValue::text(document_id));
    let location = obj1("segmentId", JsonValue::text(""));
    let insert = obj2("text", JsonValue::text(text), "endOfSegmentLocation", location);
    let body = obj1("requests", arr1(obj1("insertText", insert)));
    Ok((params, body, scopes))
}

/// The requests of `+find-replace`: one `replaceAllText`.
pub open spec fn find_replace_spec(find: Seq<char>, replace: Seq<char>, match_case: bool) -> Json {
    Json::Array(
        seq![
            jo1(
                "replaceAllText"@,
                jo2(
                    "containsText"@,
                    jo2("text"@, Json::Str(find), "matchCase"@, Json::Bool(match_case)),
                    "replaceText"@,
                    Json::Str(replace),
                ),
            ),
        ],
    )
}

/// Builds the requests of `+find-replace`.
pub fn find_replace_requests(find: &str, replace: &str, match_case: bool) -> (r: JsonValue)
    ensures
        r@ == find_replace_spec(find@, replace@, match_case),
{
    let contains = obj2("text", JsonValue::text(find), "matchCase", json_bool(match_case));
    let inner = obj2("containsText", contains, "replaceText", JsonValue::text(replace));
    arr1(obj1("replaceAllText", inner))
}

/// `+find-replace` sends a single `replaceAllText` request that looks for
/// `find`, matches case exactly when `match_case` is set (so without it the
/// search ignores case), and puts `replace` in its place.
pub proof fn lemma_find_replace_fields(find: Seq<char>, replace: Seq<char>, match_case: bool)
    ensures
        find_replace_spec(find, replace, match_case).as_array() matches Some(rs) && rs.len() == 1,
        find_replace_spec(find, replace, match_case).at_index(0).at("replaceAllText"@).at(
            "containsText"@,
        ).at("text"@) == Json::Str(find),
        find_replace_spec(find, replace, match_case).at_index(0).at("replaceAllText"@).at(
            "containsText"@,
        ).at("matchCase"@) == Json::Bool(match_case),
        find_replace_spec(find, replace, match_case).at_index(0).at("replaceAllText"@).at(
            "replaceText"@,
        ) == Json::Str(replace),
{
    reveal_strlit("replaceAllText");
    reveal_strlit("containsText");
    reveal_strlit("replaceText");
    reveal_strlit("text");
    reveal_strlit("matchCase");
    let contains = jo2("text"@, Json::Str(find), "matchCase"@, Json::Bool(match_case));
    let inner = jo2("containsText"@, contains, "replaceText"@, Json::Str(replace));
    lemma_jo1_at("replaceAllText"@, inner);
    assert("containsText"@.len() != "replaceText"@.len());
    assert("text"@.len() != "matchCase"@.len());
    lemma_jo2_at("containsText"@, contains, "replaceText"@, Json::Str(replace));
    lemma_jo2_at("text"@, Json::Str(find), "matchCase"@, Json::Bool(match_case));
}

/// The number of occurrences that a `replaceAllText` reply reports: that of
/// the first reply, 0 when absent.
pub open spec fn occurrences_spec(result: Json) -> i64 {
    match result.at("replies"@).as_array() {
        Some(rs) => if rs.len() > 0 {
            rs[0].at("replaceAllText"@).at("occurrencesChanged"@).i64_or(0)
        } else {
            0
        },
        None => 0,
    }
}

/// Reads `occurrencesChanged` from the first reply of a batch update.
pub fn occurrences_changed(result: &JsonValue) -> (r: i64)
    ensures
        r == occurrences_spec(result@),
{
    match result.at_key("replies").as_array() {
        Some(replies) => if replies.len() > 0 {
            opt_i64(replies[0].at_key("replaceAllText").at_key("occurrencesChanged"), 0)
        } else {
            0
        },
        None => 0,
    }
}

/// The texts of `runs`, joined in order.
pub open spec fn runs_text(runs: Seq<RunView>) -> Seq<char>
    decreases runs.len(),
{
    if runs.len() == 0 {
        Seq::empty()
    } else {
        runs[0].0 + runs_text(runs.drop_first())
    }
}

/// Joining the texts of two lists of runs one after the other joins the
/// lists.
pub proof fn lemma_runs_text_concat(a: Seq<RunView>, b: Seq<RunView>)
    ensures
        runs_text(a + b) == runs_text(a) + runs_text(b),
    decreases a.len(),
{
    if a.len() == 0 {
        assert(a + b =~= b);
        assert(runs_text(a) + runs_text(b) =~= runs_text(b));
    } else {
        assert((a + b)[0] == a[0]);
        assert((a + b).drop_first() =~= a.drop_first() + b);
        lemma_runs_text_concat(a.drop_first(), b);
        assert(a[0].0 + (runs_text(a.drop_first()) + runs_text(b)) =~= (a[0].0 + runs_text(
            a.drop_first(),
        )) + runs_text(b));
    }
}

proof fn lemma_element_run_text(el: Json)
    ensures
        runs_text(element_run(el)) == element_text(el),
{
    let r = element_run(el);
    match el.get("textRun"@) {
        Some(tr) => {
            assert(r.len() == 1);
            assert(r.drop_first() =~= Seq::<RunView>::empty());
            assert(runs_text(r.drop_first()) == Seq::<char>::empty());
            assert(r[0].0 == tr.at("content"@).text_or_empty());
            assert(runs_text(r) == r[0].0 + runs_text(r.drop_first()));
            assert(r[0].0 + Seq::<char>::empty() =~= r[0].0);
        },
        None => {
            assert(r.len() == 0);
        },
    }
}

proof fn lemma_text_of_elements_runs(els: Seq<Json>)
    ensures
        text_of_elements(els) == runs_text(runs_of_elements(els)),
    decreases els.len(),
{
    if els.len() > 0 {
        lemma_text_of_elements_runs(els.drop_last());
        lemma_runs_text_concat(runs_of_elements(els.drop_last()), element_run(els.last()));
        lemma_element_run_text(els.last());
    }
}

/// The text of a paragraph is the contents of all its text runs joined in
/// order: exactly what `extract_text_runs` reads from it, nothing dropped or
/// repeated.
pub proof fn lemma_paragraph_text_is_its_runs(p: Json)
    ensures
        paragraph_text(p) == runs_text(paragraph_runs(p)),
        paragraph_text(p).len() == runs_text(paragraph_runs(p)).len(),
{
    lemma_text_of_elements_runs(p.at("elements"@).elems());
}

proof fn lemma_text_of_paras_runs(s: Seq<Json>)
    ensures
        text_of_paras(s) == runs_text(runs_of_paras(s)),
    decreases s.len(),
{
    if s.len() > 0 {
        lemma_text_of_paras_runs(s.drop_last());
        lemma_runs_text_concat(runs_of_paras(s.drop_last()), para_element_runs(s.last()));
        if let Some(p) = s.last().get("paragraph"@) {
            lemma_paragraph_text_is_its_runs(p);
        } else {
            assert(runs_text(Seq::<RunView>::empty()) =~= Seq::<char>::empty());
        }
    }
}

/// The text read from a table cell is the contents of the text runs of its
/// paragraphs joined in order, with the trailing newlines removed.
pub proof fn lemma_cell_text_is_its_runs(cell: Json)
    ensures
        cell_text(cell) == trim_newlines(runs_text(runs_of_paras(cell.at("content"@).elems()))),
{
    lemma_text_of_paras_runs(cell.at("content"@).elems());
}

/// The document index of character `k` of the joined text of `runs`: the
/// start index of the run that holds it plus its offset in that run (a
/// position past the end counts in the last run); `None` without runs.
pub open spec fn run_index_at(runs: Seq<RunView>, k: int) -> Option<int>
    decreases runs.len(),
{
    if runs.len() == 0 {
        None
    } else if k < runs[0].0.len() || runs.len() == 1 {
        Some(runs[0].1 + k)
    } else {
        run_index_at(runs.drop_first(), k - runs[0].0.len())
    }
}

/// Where `+insert-link` places the link: the document index of the first
/// occurrence of `search` in the text of the document body (all its runs,
/// joined in order), if it occurs.
pub open spec fn link_target(doc: Json, search: Seq<char>) -> Option<int> {
    let runs = document_runs(doc);
    match first_match(runs_text(runs), search) {
        Some(k) => run_index_at(runs, k),
        None => None,
    }
}

/// The documents and texts for which `find_link_range` computes without
/// overflow: the end of the found text fits in an `i64`.
pub open spec fn link_range_ok(doc: Json, search: Seq<char>) -> bool {
    match link_target(doc, search) {
        Some(start) => start + search.len() <= i64::MAX,
        None => true,
    }
}

/// What `find_link_range` gives: the document range of the first occurrence
/// of `search` in the document body's text, or the message of the error.
pub open spec fn link_range_spec(doc: Json, search: Seq<char>) -> Result<(i64, i64), Seq<char>> {
    match link_target(doc, search) {
        None => Err("Text not found in document: "@ + search),
        Some(start) => Ok((start as i64, (start + search.len()) as i64)),
    }
}

/// The document index of the first occurrence of `search` in the joined text
/// of the document body's runs.
fn link_target_of(doc: &JsonValue, search: &str) -> (r: Option<i128>)
    ensures
        match r {
            Some(v) => link_target(doc@, search@) == Some(v as int) && i64::MIN <= v <= i64::MAX
                + usize::MAX,
            None => link_target(doc@, search@) is None,
        },
{
    let runs = extract_text_runs(doc);
    let needle = chars_of(search);
    let ghost rv = run_views(runs@);
    let mut joined: Vec<char> = Vec::new();
    let mut i: usize = 0;
    assert(rv.skip(0) =~= rv);
    while i < runs.len()
        invariant
            i <= runs.len(),
            rv == run_views(runs@),
            joined@ + runs_text(rv.skip(i as int)) == runs_text(rv),
        decreases runs.len() - i,
    {
        assert(rv.skip(i as int).drop_first() =~= rv.skip(i + 1));
        assert(rv.skip(i as int)[0] == rv[i as int]);
        let mut cs = chars_of(runs[i].0.as_str());
        let ghost old_joined = joined@;
        joined.append(&mut cs);
        assert(old_joined + runs_text(rv.skip(i as int)) =~= joined@ + runs_text(rv.skip(i + 1)));
        i = i + 1;
    }
    assert(rv.skip(i as int).len() == 0);
    assert(joined@ =~= runs_text(rv));
    let k = match find_text(&joined, &needle) {
        Some(k) => k,
        None => {
            return None;
        },
    };
    if runs.len() == 0 {
        return None;
    }
    let mut j: usize = 0;
    let mut rem: usize = k;
    assert(rv.skip(0) =~= rv);
    assert(link_target(doc@, search@) == run_index_at(rv, k as int));
    loop
        invariant
            j < runs.len(),
            rv == run_views(runs@),
            link_target(doc@, search@) == run_index_at(rv, k as int),
            run_index_at(rv, k as int) == run_index_at(rv.skip(j as int), rem as int),
        decreases runs.len() - j,
    {
        assert(rv.skip(j as int)[0] == rv[j as int]);
        let len = chars_of(runs[j].0.as_str()).len();
        assert(rv[j as int].0.len() == len);
        if rem < len || j + 1 == runs.len() {
            let start = runs[j].1;
            return Some(start as i128 + rem as i128);
        }
        assert(rv.skip(j as int).drop_first() =~= rv.skip(j + 1));
        rem = rem - len;
        j = j + 1;
    }
}

/// Finds the range to link for `+insert-link`: the first occurrence of
/// `search` in the text of the document body, which may span several runs.
pub fn find_link_range(doc: &JsonValue, search: &str) -> (r: Result<(i64, i64), GwsError>)
    requires
        link_range_ok(doc@, search@),
    ensures
        other_outcome(r, link_range_spec(doc@, search@)),
{
    match link_target_of(doc, search) {
        Some(start) => {
            let len = chars_of(search).len();
            let end = start + len as i128;
            Ok((start as i64, end as i64))
        },
        None => Err(GwsError::Other(concat_msg("Text not found in document: ", search))),
    }
}

/// The requests of `+insert-link`: one `updateTextStyle` setting the link.
pub open spec fn link_requests_spec(start: i64, end: i64, url: Seq<char>) -> Json {
    Json::Array(
        seq![
            jo1(
                "updateTextStyle"@,
                jo3(
                    "range"@,
                    jo2("startIndex"@, json_int(start), "endIndex"@, json_int(end)),
                    "textStyle"@,
                    jo1("link"@, jo1("url"@, Json::Str(url))),
                    "fields"@,
                    Json::Str("link"@),
                ),
            ),
        ],
    )
}

proof fn lemma_run_index_at_lower(runs: Seq<RunView>, k: int)
    requires
        k >= 0,
    ensures
        run_index_at(runs, k) matches Some(v) ==> v >= i64::MIN,
    decreases runs.len(),
{
    if runs.len() > 1 && k >= runs[0].0.len() {
        lemma_run_index_at_lower(runs.drop_first(), k - runs[0].0.len());
    }
}

/// `+insert-link` links exactly the found text: the range runs from the
/// start of the first occurrence over as many characters as the search text
/// has, and the request sets that range's link to `url` and nothing else.
pub proof fn lemma_link_fields(doc: Json, search: Seq<char>, url: Seq<char>)
    requires
        link_range_ok(doc, search),
    ensures
        link_range_spec(doc, search) matches Ok((s, e)) ==> {
            &&& e - s == search.len()
            &&& link_requests_spec(s, e, url).at_index(0).at("updateTextStyle"@).at("range"@).at(
                "startIndex"@,
            ) == json_int(s)
            &&& link_requests_spec(s, e, url).at_index(0).at("updateTextStyle"@).at("range"@).at(
                "endIndex"@,
            ) == json_int(e)
            &&& link_requests_spec(s, e, url).at_index(0).at("updateTextStyle"@).at("textStyle"@).at(
                "link"@,
            ).at("url"@) == Json::Str(url)
            &&& link_requests_spec(s, e, url).at_index(0).at("updateTextStyle"@).at("fields"@)
                == Json::Str("link"@)
        },
{
    reveal_strlit("updateTextStyle");
    reveal_strlit("range");
    reveal_strlit("textStyle");
    reveal_strlit("fields");
    reveal_strlit("startIndex");
    reveal_strlit("endIndex");
    reveal_strlit("link");
    reveal_strlit("url");
    let runs = document_runs(doc);
    if let Some(k) = first_match(runs_text(runs), search) {
        let w = choose|i: int| is_first_match(runs_text(runs), search, i);
        assert(k == w && is_first_match(runs_text(runs), search, w));
        lemma_run_index_at_lower(runs, k);
    }
    if let Ok((s, e)) = link_range_spec(doc, search) {
        let range = jo2("startIndex"@, json_int(s), "endIndex"@, json_int(e));
        let style = jo1("link"@, jo1("url"@, Json::Str(url)));
        assert("startIndex"@.len() != "endIndex"@.len());
        assert("range"@.len() != "textStyle"@.len());
        assert("range"@.len() != "fields"@.len());
        assert("textStyle"@.len() != "fields"@.len());
        lemma_jo1_at("updateTextStyle"@, jo3("range"@, range, "textStyle"@, style, "fields"@, Json::Str("link"@)));
        lemma_jo3_at("range"@, range, "textStyle"@, style, "fields"@, Json::Str("link"@));
        lemma_jo2_at("startIndex"@, json_int(s), "endIndex"@, json_int(e));
        lemma_jo1_at("link"@, jo1("url"@, Json::Str(url)));
        lemma_jo1_at("url"@, Json::Str(url));
    }
}

/// Builds the requests of `+insert-link`.
pub fn link_requests(start: i64, end: i64, url: &str) -> (r: JsonValue)
    ensures
        r@ == link_requests_spec(start, end, url@),
{
    let range = obj2("startIndex", JsonValue::from_i64(start), "endIndex", JsonValue::from_i64(end));
    let style = obj1("link", obj1("url", JsonValue::text(url)));
    let inner = obj3("range", range, "textStyle", style, "fields", JsonValue::text("link"));
    arr1(obj1("updateTextStyle", inner))
}

/// One `updateParagraphStyle` request of `+set-style`.
pub open spec fn style_request_spec(start: i64, end: i64, style: Seq<char>) -> Json {
    jo1(
        "updateParagraphStyle"@,
        jo3(
            "range"@,
            jo2("startIndex"@, json_int(start), "endIndex"@, json_int(end)),
            "paragraphStyle"@,
            jo1("namedStyleType"@, Json::Str(style)),
            "fields"@,
            Json::Str("namedStyleType"@),
        ),
    )
}

/// What `set_style_requests` gives: one request per paragraph of the body
/// (those in table cells included) containing `find`, in document order, or
/// the message of the error when there is none.
pub open spec fn set_style_spec(doc: Json, find: Seq<char>, style: Seq<char>) -> Result<Json, Seq<char>> {
    let hits = document_hits(doc, find);
    if hits.len() == 0 {
        Err("No paragraphs found containing text: "@ + find)
    } else {
        Ok(Json::Array(Seq::new(hits.len(), |i: int| style_request_spec(hits[i].1, hits[i].2, style))))
    }
}

/// `+set-style` sends one request per paragraph that contains `find`, in
/// document order; request `i` covers exactly paragraph `i`'s range and sets
/// its named style to `style`.
pub proof fn lemma_set_style_fields(doc: Json, find: Seq<char>, style: Seq<char>)
    ensures
        set_style_spec(doc, find, style) matches Ok(j) ==> {
            let hits = document_hits(doc, find);
            &&& j.as_array() matches Some(rs) && rs.len() == hits.len() && hits.len() > 0
            &&& forall|i: int|
                0 <= i < hits.len() ==> {
                    let req = (#[trigger] j.at_index(i)).at("updateParagraphStyle"@);
                    &&& req.at("range"@).at("startIndex"@) == json_int(hits[i].1)
                    &&& req.at("range"@).at("endIndex"@) == json_int(hits[i].2)
                    &&& req.at("paragraphStyle"@).at("namedStyleType"@) == Json::Str(style)
                    &&& req.at("fields"@) == Json::Str("namedStyleType"@)
                }
        },
        set_style_spec(doc, find, style) is Err <==> document_hits(doc, find).len() == 0,
{
    reveal_strlit("updateParagraphStyle");
    reveal_strlit("range");
    reveal_strlit("paragraphStyle");
    reveal_strlit("fields");
    reveal_strlit("startIndex");
    reveal_strlit("endIndex");
    reveal_strlit("namedStyleType");
    assert("startIndex"@.len() != "endIndex"@.len());
    assert("range"@.len() != "paragraphStyle"@.len());
    assert("range"@.len() != "fields"@.len());
    assert("paragraphStyle"@.len() != "fields"@.len());
    if let Ok(j) = set_style_spec(doc, find, style) {
        let hits = document_hits(doc, find);
        assert forall|i: int| 0 <= i < hits.len() implies {
            let req = (#[trigger] j.at_index(i)).at("updateParagraphStyle"@);
            &&& req.at("range"@).at("startIndex"@) == json_int(hits[i].1)
            &&& req.at("range"@).at("endIndex"@) == json_int(hits[i].2)
            &&& req.at("paragraphStyle"@).at("namedStyleType"@) == Json::Str(style)
            &&& req.at("fields"@) == Json::Str("namedStyleType"@)
        } by {
            let range = jo2("startIndex"@, json_int(hits[i].1), "endIndex"@, json_int(hits[i].2));
            let ps = jo1("namedStyleType"@, Json::Str(style));
            assert(j.at_index(i) == style_request_spec(hits[i].1, hits[i].2, style));
            lemma_jo1_at(
                "updateParagraphStyle"@,
                jo3("range"@, range, "paragraphStyle"@, ps, "fields"@, Json::Str("namedStyleType"@)),
            );
            lemma_jo3_at("range"@, range, "paragraphStyle"@, ps, "fields"@, Json::Str("namedStyleType"@));
            lemma_jo2_at("startIndex"@, json_int(hits[i].1), "endIndex"@, json_int(hits[i].2));
            lemma_jo1_at("namedStyleType"@, Json::Str(style));
        }
    }
}

/// Builds the requests of `+set-style`: the named style for every paragraph
/// of the body, in table cells too, whose text contains `find`.
pub fn set_style_requests(doc: &JsonValue, find: &str, style: &str) -> (r: Result<JsonValue, GwsError>)
    ensures
        json_outcome(r, set_style_spec(doc@, find@, style@)),
{
    let paragraphs = find_paragraphs_containing(doc, find);
    if paragraphs.len() == 0 {
        return Err(GwsError::Other(concat_msg("No paragraphs found containing text: ", find)));
    }
    let ghost hits = document_hits(doc@, find@);
    let mut requests: Vec<JsonValue> = Vec::new();
    let mut i: usize = 0;
    while i < paragraphs.len()
        invariant
            i <= paragraphs.len(),
            hits == run_views(paragraphs@),
            requests@.len() == i,
            forall|k: int|
                0 <= k < i ==> (#[trigger] requests@[k])@ == style_request_spec(
                    hits[k].1,
                    hits[k].2,
                    style@,
                ),
        decreases paragraphs.len() - i,
    {
        let (start, end) = (paragraphs[i].1, paragraphs[i].2);
        let range = obj2("startIndex", JsonValue::from_i64(start), "endIndex", JsonValue::from_i64(end));
        let named = obj1("namedStyleType", JsonValue::text(style));
        let inner = obj3("range", range, "paragraphStyle", named, "fields", JsonValue::text("namedStyleType"));
        requests.push(obj1("updateParagraphStyle", inner));
        i = i + 1;
    }
    let r = JsonValue::array(requests);
    assert(views(requests@) =~= Seq::new(
        hits.len(),
        |i: int| style_request_spec(hits[i].1, hits[i].2, style@),
    ));
    Ok(r)
}

/// The message for a table index beyond the tables of a document, as the
/// table reading commands word it.
pub open spec fn table_range_msg(ti: nat, count: nat) -> Seq<char> {
    "Table index "@ + decimal_text(ti) + " out of range (document has "@ + decimal_text(count)
        + " table(s))"@
}

/// What `table_at` gives: the start index and table object of the table at
/// `ti`, or the message of the error.
pub open spec fn table_at_spec(doc: Json, ti: usize) -> Result<(i64, Json), Seq<char>> {
    let ts = document_tables(doc);
    if ti >= ts.len() {
        Err(table_range_msg(ti as nat, ts.len()))
    } else {
        Ok(ts[ti as int])
    }
}

/// The table at `table_index` among the tables of a document, with its start
/// index, as `+table-read` and `+table-add-column` look it up.
pub fn table_at(doc: &JsonValue, table_index: usize) -> (r: Result<(i64, &JsonValue), GwsError>)
    ensures
        match (r, table_at_spec(doc@, table_index)) {
            (Ok((start, t)), Ok((s, tj))) => start == s && t@ == tj,
            (Err(GwsError::Other(m)), Err(e)) => m@ == e,
            _ => false,
        },
{
    let tables = find_tables(doc);
    if table_index >= tables.len() {
        let head = num_msg("Table index ", table_index, " out of range (document has ");
        let tail = num_msg("", tables.len(), " table(s))");
        let msg = concat_msg(head.as_str(), tail.as_str());
        proof {
            reveal_strlit("");
        }
        assert(msg@ =~= table_range_msg(table_index as nat, tables.len() as nat));
        return Err(GwsError::Other(msg));
    }
    let (start, t) = tables[table_index];
    assert((tables@[table_index as int].0, tables@[table_index as int].1@) == document_tables(
        doc@,
    )[table_index as int]);
    Ok((start, t))
}

/// The column after which `+table-add-column` inserts: the one given, else
/// the last column (0 for a table without cells).
pub open spec fn add_column_after(col_count: nat, after_col: Option<usize>) -> nat {
    match after_col {
        Some(c) => c as nat,
        None => if col_count > 0 {
            (col_count - 1) as nat
        } else {
            0
        },
    }
}

/// The request of `+table-add-column`: a column to the right of `after_col`.
pub open spec fn add_column_spec(table_start: i64, after_col: nat) -> Json {
    Json::Array(
        seq![
            jo1(
                "insertTableColumn"@,
                jo2(
                    "tableCellLocation"@,
                    jo3(
                        "tableStartLocation"@,
                        jo1("index"@, json_int(table_start)),
                        "columnIndex"@,
                        Json::PosInt(after_col as u64),
                        "rowIndex"@,
                        Json::PosInt(0),
                    ),
                    "insertRight"@,
                    Json::Bool(true),
                ),
            ),
        ],
    )
}

/// `+table-add-column` inserts the new column to the right of the column it
/// names: `after_col` when given, else the table's last column (the first
/// when the table has none), in the first row's position of the table at
/// `table_start`.
pub proof fn lemma_add_column_right(table_start: i64, col_count: nat, after_col: Option<usize>)
    ensures
        ({
            let inner = add_column_spec(table_start, add_column_after(col_count, after_col)).at_index(
                0,
            ).at("insertTableColumn"@);
            &&& inner.at("insertRight"@) == Json::Bool(true)
            &&& inner.at("tableCellLocation"@).at("columnIndex"@) == Json::PosInt(
                match after_col {
                    Some(c) => c as u64,
                    None => if col_count > 0 {
                        (col_count - 1) as u64
                    } else {
                        0u64
                    },
                },
            )
            &&& inner.at("tableCellLocation"@).at("rowIndex"@) == Json::PosInt(0)
            &&& inner.at("tableCellLocation"@).at("tableStartLocation"@).at("index"@) == json_int(
                table_start,
            )
        }),
{
    reveal_strlit("insertTableColumn");
    reveal_strlit("tableCellLocation");
    reveal_strlit("insertRight");
    reveal_strlit("tableStartLocation");
    reveal_strlit("columnIndex");
    reveal_strlit("rowIndex");
    reveal_strlit("index");
    let a = add_column_after(col_count, after_col);
    let tsl = jo1("index"@, json_int(table_start));
    let loc = jo3(
        "tableStartLocation"@,
        tsl,
        "columnIndex"@,
        Json::PosInt(a as u64),
        "rowIndex"@,
        Json::PosInt(0),
    );
    let inner = jo2("tableCellLocation"@, loc, "insertRight"@, Json::Bool(true));
    assert("tableCellLocation"@.len() != "insertRight"@.len());
    assert("tableStartLocation"@.len() != "columnIndex"@.len());
    assert("tableStartLocation"@.len() != "rowIndex"@.len());
    assert("columnIndex"@.len() != "rowIndex"@.len());
    lemma_jo1_at("insertTableColumn"@, inner);
    lemma_jo2_at("tableCellLocation"@, loc, "insertRight"@, Json::Bool(true));
    lemma_jo3_at("tableStartLocation"@, tsl, "columnIndex"@, Json::PosInt(a as u64), "rowIndex"@, Json::PosInt(0));
    lemma_jo1_at("index"@, json_int(table_start));
}

/// Builds the request of `+table-add-column` for the table at `table_index`,
/// with the table's column count before the insertion.
pub fn add_column_request(doc: &JsonValue, table_index: usize, after_col: Option<usize>) -> (r: Result<(JsonValue, usize), GwsError>)
    ensures
        match (r, table_at_spec(doc@, table_index)) {
            (Ok((req, cols)), Ok((start, t))) => {
                &&& cols == max_row_len(table_texts(t))
                &&& req@ == add_column_spec(start, add_column_after(cols as nat, after_col))
            },
            (Err(GwsError::Other(m)), Err(e)) => m@ == e,
            _ => false,
        },
{
    let (table_start, table) = match table_at(doc, table_index) {
        Ok(v) => v,
        Err(e) => {
            return Err(e);
        },
    };
    let (_rows, _row_count, col_count) = read_table(table);
    let after = match after_col {
        Some(c) => c,
        None => if col_count > 0 {
            col_count - 1
        } else {
            0
        },
    };
    let location = obj3(
        "tableStartLocation",
        obj1("index", JsonValue::from_i64(table_start)),
        "columnIndex",
        JsonValue::from_usize(after),
        "rowIndex",
        JsonValue::from_usize(0),
    );
    let inner = obj2("tableCellLocation", location, "insertRight", json_bool(true));
    Ok((arr1(obj1("insertTableColumn", inner)), col_count))
}

/// The requests of `+table-write`: delete the cell's content when it has
/// any, then insert the text at the cell's start.
pub open spec fn table_write_spec(start: i64, end: i64, text: Seq<char>) -> Json {
    let insert = jo1(
        "insertText"@,
        jo2("text"@, Json::Str(text), "location"@, jo2("index"@, json_int(start), "segmentId"@, Json::Str(""@))),
    );
    if end > start {
        Json::Array(
            seq![
                jo1(
                    "deleteContentRange"@,
                    jo1(
                        "range"@,
                        jo3(
                            "startIndex"@,
                            json_int(start),
                            "endIndex"@,
                            json_int(end),
                            "segmentId"@,
                            Json::Str(""@),
                        ),
                    ),
                ),
                insert,
            ],
        )
    } else {
        Json::Array(seq![insert])
    }
}

/// `+table-write` replaces the cell's text: when the cell holds text
/// (`end > start`) the first request deletes exactly `start..end`, and the
/// last request inserts `text` at `start`, so the new text takes the old
/// text's place.
pub proof fn lemma_table_write_replaces(start: i64, end: i64, text: Seq<char>)
    ensures
        ({
            let reqs = table_write_spec(start, end, text).as_array()->0;
            let ins = reqs.last().at("insertText"@);
            &&& table_write_spec(start, end, text).as_array() is Some
            &&& reqs.len() == if end > start {
                2int
            } else {
                1int
            }
            &&& ins.at("text"@) == Json::Str(text)
            &&& ins.at("location"@).at("index"@) == json_int(start)
            &&& end > start ==> reqs[0].at("deleteContentRange"@).at("range"@).at("startIndex"@)
                == json_int(start) && reqs[0].at("deleteContentRange"@).at("range"@).at(
                "endIndex"@,
            ) == json_int(end)
        }),
{
    reveal_strlit("insertText");
    reveal_strlit("text");
    reveal_strlit("location");
    reveal_strlit("index");
    reveal_strlit("segmentId");
    reveal_strlit("deleteContentRange");
    reveal_strlit("range");
    reveal_strlit("startIndex");
    reveal_strlit("endIndex");
    let loc = jo2("index"@, json_int(start), "segmentId"@, Json::Str(""@));
    let body = jo2("text"@, Json::Str(text), "location"@, loc);
    assert("text"@.len() != "location"@.len());
    assert("index"@.len() != "segmentId"@.len());
    assert("startIndex"@.len() != "endIndex"@.len());
    assert("startIndex"@.len() != "segmentId"@.len());
    assert("endIndex"@.len() != "segmentId"@.len());
    lemma_jo1_at("insertText"@, body);
    lemma_jo2_at("text"@, Json::Str(text), "location"@, loc);
    lemma_jo2_at("index"@, json_int(start), "segmentId"@, Json::Str(""@));
    let range = jo3("startIndex"@, json_int(start), "endIndex"@, json_int(end), "segmentId"@, Json::Str(""@));
    lemma_jo1_at("deleteContentRange"@, jo1("range"@, range));
    lemma_jo1_at("range"@, range);
    lemma_jo3_at("startIndex"@, json_int(start), "endIndex"@, json_int(end), "segmentId"@, Json::Str(""@));
}

/// Builds the requests of `+table-write`: replaces the text of the cell at
/// (`row`, `col`) of the table at `table_index`.
pub fn table_write_requests(doc: &JsonValue, table_index: usize, row: usize, col: usize, text: &str) -> (r: Result<JsonValue, GwsError>)
    requires
        cell_range_ok(doc@, table_index, row, col),
    ensures
        json_outcome(
            r,
            match cell_range_spec(doc@, table_index, row, col) {
                Ok((start, end)) => Ok(table_write_spec(start, end, text@)),
                Err(m) => Err(m),
            },
        ),
{
    let (start, end) = match find_cell_range(doc, table_index, row, col) {
        Ok(v) => v,
        Err(e) => {
            return Err(e);
        },
    };
    let location = obj2("index", JsonValue::from_i64(start), "segmentId", JsonValue::text(""));
    let insert = obj1("insertText", obj2("text", JsonValue::text(text), "location", location));
    let mut requests: Vec<JsonValue> = Vec::new();
    if end > start {
        let range = obj3(
            "startIndex",
            JsonValue::from_i64(start),
            "endIndex",
            JsonValue::from_i64(end),
            "segmentId",
            JsonValue::text(""),
        );
        requests.push(obj1("deleteContentRange", obj1("range", range)));
    }
    requests.push(insert);
    let r = JsonValue::array(requests);
    assert(views(requests@) =~= table_write_spec(start, end, text@)->Array_0);
    Ok(r)
}

/// The message for a row index beyond the rows of a table.
pub open spec fn row_range_msg(row: nat, count: nat) -> Seq<char> {
    "Row index "@ + decimal_text(row) + " out of range (table has "@ + decimal_text(count)
        + " rows, max index is "@ + decimal_text(if count > 0 {
        (count - 1) as nat
    } else {
        0
    }) + ")"@
}

fn row_range_error(row: usize, count: usize) -> (r: GwsError)
    ensures
        r matches GwsError::Other(m) && m@ == row_range_msg(row as nat, count as nat),
{
    let max_index = if count > 0 {
        count - 1
    } else {
        0
    };
    let a = num_msg("Row index ", row, " out of range (table has ");
    let b = num_msg("", count, " rows, max index is ");
    let c = num_msg("", max_index, ")");
    let ab = concat_msg(a.as_str(), b.as_str());
    let msg = concat_msg(ab.as_str(), c.as_str());
    proof {
        reveal_strlit("");
    }
    assert(msg@ =~= row_range_msg(row as nat, count as nat));
    GwsError::Other(msg)
}

/// The row after which `+insert-table-row` inserts: the one given, else the
/// last row (0 for a table without rows).
pub open spec fn insert_after_row(row_count: nat, after_row: Option<usize>) -> nat {
    match after_row {
        Some(r) => r as nat,
        None => if row_count > 0 {
            (row_count - 1) as nat
        } else {
            0
        },
    }
}

/// The request of `+insert-table-row`: a row below `after_row`.
pub open spec fn insert_row_spec(table_start: i64, after_row: nat) -> Json {
    Json::Array(
        seq![
            jo1(
                "insertTableRow"@,
                jo2(
                    "tableCellLocation"@,
                    jo2(
                        "tableStartLocation"@,
                        jo1("index"@, json_int(table_start)),
                        "rowIndex"@,
                        Json::PosInt(after_row as u64),
                    ),
                    "insertBelow"@,
                    Json::Bool(true),
                ),
            ),
        ],
    )
}

/// What `insert_row_request` gives: the request, the row it inserts after
/// and the row count before, or the message of the error.
pub open spec fn insert_row_outcome(doc: Json, ti: usize, after_row: Option<usize>) -> Result<(Json, nat, nat), Seq<char>> {
    match table_start_spec(doc, ti) {
        Err(m) => Err(m),
        Ok(start) => match table_row_count_spec(doc, ti) {
            Err(m) => Err(m),
            Ok(count) => {
                let after = insert_after_row(count as nat, after_row);
                if after >= count {
                    Err(row_range_msg(after, count as nat))
                } else {
                    Ok((insert_row_spec(start, after), after, count as nat))
                }
            },
        },
    }
}

/// `+insert-table-row` puts the new row below the row it names: that row is
/// `after_row` when given, else the table's last row, and it must exist; the
/// request addresses the table by its start index.
pub proof fn lemma_insert_row_below(doc: Json, ti: usize, after_row: Option<usize>)
    ensures
        match insert_row_outcome(doc, ti, after_row) {
            Ok((req, after, count)) => {
                &&& req.at_index(0).at("insertTableRow"@).at("insertBelow"@) == Json::Bool(true)
                &&& req.at_index(0).at("insertTableRow"@).at("tableCellLocation"@).at("rowIndex"@)
                    == Json::PosInt(after as u64)
                &&& table_start_spec(doc, ti) matches Ok(start) && req.at_index(0).at(
                    "insertTableRow"@,
                ).at("tableCellLocation"@).at("tableStartLocation"@).at("index"@) == json_int(start)
                &&& table_row_count_spec(doc, ti) matches Ok(n) && n == count
                &&& after < count
                &&& after == match after_row {
                    Some(r) => r as nat,
                    None => (count - 1) as nat,
                }
            },
            Err(_) => true,
        },
{
    reveal_strlit("insertTableRow");
    reveal_strlit("tableCellLocation");
    reveal_strlit("insertBelow");
    reveal_strlit("tableStartLocation");
    reveal_strlit("rowIndex");
    reveal_strlit("index");
    if let Ok((req, after, count)) = insert_row_outcome(doc, ti, after_row) {
        let start = table_start_spec(doc, ti)->Ok_0;
        let tsl = jo1("index"@, json_int(start));
        let loc = jo2("tableStartLocation"@, tsl, "rowIndex"@, Json::PosInt(after as u64));
        let inner = jo2("tableCellLocation"@, loc, "insertBelow"@, Json::Bool(true));
        assert("tableCellLocation"@.len() != "insertBelow"@.len());
        assert("tableStartLocation"@.len() != "rowIndex"@.len());
        lemma_jo1_at("insertTableRow"@, inner);
        lemma_jo2_at("tableCellLocation"@, loc, "insertBelow"@, Json::Bool(true));
        lemma_jo2_at("tableStartLocation"@, tsl, "rowIndex"@, Json::PosInt(after as u64));
        lemma_jo1_at("index"@, json_int(start));
    }
}

/// `+delete-table-row` removes exactly the row it names, which must exist in
/// a table of more than one row; one row fewer is left.
pub proof fn lemma_delete_row_fields(doc: Json, ti: usize, row: usize)
    ensures
        match delete_row_outcome(doc, ti, row) {
            Ok((req, rows_after)) => {
                &&& req.at_index(0).at("deleteTableRow"@).at("tableCellLocation"@).at("rowIndex"@)
                    == Json::PosInt(row as u64)
                &&& table_start_spec(doc, ti) matches Ok(start) && req.at_index(0).at(
                    "deleteTableRow"@,
                ).at("tableCellLocation"@).at("tableStartLocation"@).at("index"@) == json_int(start)
                &&& table_row_count_spec(doc, ti) matches Ok(n) && row < n && n > 1 && rows_after
                    == n - 1
            },
            Err(_) => true,
        },
{
    reveal_strlit("deleteTableRow");
    reveal_strlit("tableCellLocation");
    reveal_strlit("tableStartLocation");
    reveal_strlit("rowIndex");
    reveal_strlit("index");
    if let Ok((req, rows_after)) = delete_row_outcome(doc, ti, row) {
        let start = table_start_spec(doc, ti)->Ok_0;
        let tsl = jo1("index"@, json_int(start));
        let loc = jo2("tableStartLocation"@, tsl, "rowIndex"@, Json::PosInt(row as nat as u64));
        assert("tableStartLocation"@.len() != "rowIndex"@.len());
        lemma_jo1_at("deleteTableRow"@, jo1("tableCellLocation"@, loc));
        lemma_jo1_at("tableCellLocation"@, loc);
        lemma_jo2_at("tableStartLocation"@, tsl, "rowIndex"@, Json::PosInt(row as nat as u64));
        lemma_jo1_at("index"@, json_int(start));
    }
}

/// Builds the request of `+insert-table-row` for the table at
/// `table_index`, with the row it inserts after and the row count before.
pub fn insert_row_request(doc: &JsonValue, table_index: usize, after_row: Option<usize>) -> (r: Result<(JsonValue, usize, usize), GwsError>)
    ensures
        match (r, insert_row_outcome(doc@, table_index, after_row)) {
            (Ok((req, after, count)), Ok((j, a, c))) => req@ == j && after == a && count == c,
            (Err(GwsError::Other(m)), Err(e)) => m@ == e,
            _ => false,
        },
{
    let start_index = match find_table_start_index(doc, table_index) {
        Ok(v) => v,
        Err(e) => {
            return Err(e);
        },
    };
    let row_count = match get_table_row_count(doc, table_index) {
        Ok(v) => v,
        Err(e) => {
            return Err(e);
        },
    };
    let after = match after_row {
        Some(r) => r,
        None => if row_count > 0 {
            row_count - 1
        } else {
            0
        },
    };
    if after >= row_count {
        return Err(row_range_error(after, row_count));
    }
    let location = obj2(
        "tableStartLocation",
        obj1("index", JsonValue::from_i64(start_index)),
        "rowIndex",
        JsonValue::from_usize(after),
    );
    let inner = obj2("tableCellLocation", location, "insertBelow", json_bool(true));
    Ok((arr1(obj1("insertTableRow", inner)), after, row_count))
}

/// The request of `+delete-table-row`.
pub open spec fn delete_row_spec(table_start: i64, row: nat) -> Json {
    Json::Array(
        seq![
            jo1(
                "deleteTableRow"@,
                jo1(
                    "tableCellLocation"@,
                    jo2(
                        "tableStartLocation"@,
                        jo1("index"@, json_int(table_start)),
                        "rowIndex"@,
                        Json::PosInt(row as u64),
                    ),
                ),
            ),
        ],
    )
}

/// What `delete_row_request` gives: the request and the row count after the
/// deletion, or the message of the error. The only row of a table is never
/// deleted.
pub open spec fn delete_row_outcome(doc: Json, ti: usize, row: usize) -> Result<(Json, nat), Seq<char>> {
    match table_start_spec(doc, ti) {
        Err(m) => Err(m),
        Ok(start) => match table_row_count_spec(doc, ti) {
            Err(m) => Err(m),
            Ok(count) => if row >= count {
                Err(row_range_msg(row as nat, count as nat))
            } else if count <= 1 {
                Err("Cannot delete the only row in a table"@)
            } else {
                Ok((delete_row_spec(start, row as nat), (count - 1) as nat))
            },
        },
    }
}

/// Builds the request of `+delete-table-row` for the table at `table_index`,
/// with the row count after the deletion.
pub fn delete_row_request(doc: &JsonValue, table_index: usize, row: usize) -> (r: Result<(JsonValue, usize), GwsError>)
    ensures
        match (r, delete_row_outcome(doc@, table_index, row)) {
            (Ok((req, rows_after)), Ok((j, a))) => req@ == j && rows_after == a,
            (Err(GwsError::Other(m)), Err(e)) => m@ == e,
            _ => false,
        },
{
    let start_index = match find_table_start_index(doc, table_index) {
        Ok(v) => v,
        Err(e) => {
            return Err(e);
        },
    };
    let row_count = match get_table_row_count(doc, table_index) {
        Ok(v) => v,
        Err(e) => {
            return Err(e);
        },
    };
    if row >= row_count {
        return Err(row_range_error(row, row_count));
    }
    if row_count <= 1 {
        return Err(GwsError::Other(String::from_str("Cannot delete the only row in a table")));
    }
    let location = obj2(
        "tableStartLocation",
        obj1("index", JsonValue::from_i64(start_index)),
        "rowIndex",
        JsonValue::from_usize(row),
    );
    Ok((arr1(obj1("deleteTableRow", obj1("tableCellLocation", location))), row_count - 1))
}

/// Reads the table at `table_index` for `+table-read`: its rows of cell
/// texts, the row count and the length of the longest row.
pub fn table_read(doc: &JsonValue, table_index: usize) -> (r: Result<(Vec<Vec<String>>, usize, usize), GwsError>)
    ensures
        match (r, table_at_spec(doc@, table_index)) {
            (Ok((rows, row_count, col_count)), Ok((_, t))) => {
                &&& grid_view(rows@) == table_texts(t)
                &&& row_count == table_texts(t).len()
                &&& col_count == max_row_len(table_texts(t))
            },
            (Err(GwsError::Other(m)), Err(e)) => m@ == e,
            _ => false,
        },
{
    match table_at(doc, table_index) {
        Ok((_, table)) => Ok(read_table(table)),
        Err(e) => Err(e),
    }
}

/// One entry of `+table-list`: the table's index, row and column counts, and
/// the texts of its first row.
#[derive(Debug)]
pub struct TableSummary {
    pub index: usize,
    pub rows: usize,
    pub cols: usize,
    pub headers: Vec<String>,
}

/// The texts of the first row of a table, none for a table without rows.
pub open spec fn headers_of(texts: Seq<Seq<Seq<char>>>) -> Seq<Seq<char>> {
    if texts.len() > 0 {
        texts[0]
    } else {
        Seq::empty()
    }
}

/// Summarises every table of a document for `+table-list`.
pub fn table_list(doc: &JsonValue) -> (r: Vec<TableSummary>)
    ensures
        r@.len() == document_tables(doc@).len(),
        forall|i: int|
            0 <= i < r@.len() ==> {
                let texts = table_texts(document_tables(doc@)[i].1);
                &&& (#[trigger] r@[i]).index == i
                &&& r@[i].rows == texts.len()
                &&& r@[i].cols == max_row_len(texts)
                &&& string_views(r@[i].headers@) == headers_of(texts)
            },
{
    let tables = find_tables(doc);
    let mut out: Vec<TableSummary> = Vec::new();
    let mut i: usize = 0;
    while i < tables.len()
        invariant
            i <= tables.len(),
            tables@.len() == document_tables(doc@).len(),
            forall|k: int|
                0 <= k < tables@.len() ==> ((#[trigger] tables@[k]).0, tables@[k].1@)
                    == document_tables(doc@)[k],
            out@.len() == i,
            forall|k: int|
                0 <= k < i ==> {
                    let texts = table_texts(document_tables(doc@)[k].1);
                    &&& (#[trigger] out@[k]).index == k
                    &&& out@[k].rows == texts.len()
                    &&& out@[k].cols == max_row_len(texts)
                    &&& string_views(out@[k].headers@) == headers_of(texts)
                },
        decreases tables.len() - i,
    {
        let (rows_data, row_count, col_count) = read_table(tables[i].1);
        assert(tables@[i as int].1@ == document_tables(doc@)[i as int].1);
        let headers = if rows_data.len() > 0 {
            let h = crate::text::copy_strings(&rows_data[0]);
            assert(string_views(rows_data@[0]@) =~= grid_view(rows_data@)[0]);
            h
        } else {
            let h: Vec<String> = Vec::new();
            assert(string_views(h@) =~= Seq::<Seq<char>>::empty());
            h
        };
        out.push(TableSummary { index: i, rows: row_count, cols: col_count, headers });
        i = i + 1;
    }
    out
}

/// The subcommands of the Docs helper.
#[derive(Debug)]
pub enum DocsCommand {
    Write,
    Revisions,
    FindReplace,
    InsertLink,
    SetStyle,
    TableRead,
    TableList,
    TableAddColumn,
    TableWrite,
    InsertTableRow,
    DeleteTableRow,
}

/// The subcommand that each name selects.
pub open spec fn docs_command_spec(name: Seq<char>) -> Option<DocsCommand> {
    if name == "+write"@ {
        Some(DocsCommand::Write)
    } else if name == "+revisions"@ {
        Some(DocsCommand::Revisions)
    } else if name == "+find-replace"@ {
        Some(DocsCommand::FindReplace)
    } else if name == "+insert-link"@ {
        Some(DocsCommand::InsertLink)
    } else if name == "+set-style"@ {
        Some(DocsCommand::SetStyle)
    } else if name == "+table-read"@ {
        Some(DocsCommand::TableRead)
    } else if name == "+table-list"@ {
        Some(DocsCommand::TableList)
    } else if name == "+table-add-column"@ {
        Some(DocsCommand::TableAddColumn)
    } else if name == "+table-write"@ {
        Some(DocsCommand::TableWrite)
    } else if name == "+insert-table-row"@ {
        Some(DocsCommand::InsertTableRow)
    } else if name == "+delete-table-row"@ {
        Some(DocsCommand::DeleteTableRow)
    } else {
        None
    }
}

impl DocsHelper {
    /// The subcommand that a name selects, if any.
    pub fn command(name: &str) -> (r: Option<DocsCommand>)
        ensures
            r == docs_command_spec(name@),
    {
        if same_text(name, "+write") {
            Some(DocsCommand::Write)
        } else if same_text(name, "+revisions") {
            Some(DocsCommand::Revisions)
        } else if same_text(name, "+find-replace") {
            Some(DocsCommand::FindReplace)
        } else if same_text(name, "+insert-link") {
            Some(DocsCommand::InsertLink)
        } else if same_text(name, "+set-style") {
            Some(DocsCommand::SetStyle)
        } else if same_text(name, "+table-read") {
            Some(DocsCommand::TableRead)
        } else if same_text(name, "+table-list") {
            Some(DocsCommand::TableList)
        } else if same_text(name, "+table-add-column") {
            Some(DocsCommand::TableAddColumn)
        } else if same_text(name, "+table-write") {
            Some(DocsCommand::TableWrite)
        } else if same_text(name, "+insert-table-row") {
            Some(DocsCommand::InsertTableRow)
        } else if same_text(name, "+delete-table-row") {
            Some(DocsCommand::DeleteTableRow)
        } else {
            None
        }
    }
}

/// Whether `find_cell_range` reads the cell without overflow.
pub fn cell_range_valid(doc_val: &JsonValue, table_index: usize, row: usize, col: usize) -> (r: bool)
    ensures
        r == cell_range_ok(doc_val@, table_index, row, col),
{
    let tables = match tables_of_body(doc_val) {
        Ok(t) => t,
        Err(_) => {
            return true;
        },
    };
    if table_index >= tables.len() {
        return true;
    }
    let table_rows = match tables[table_index].at_key("table").at_key("tableRows").as_array() {
        Some(v) => v,
        None => {
            return true;
        },
    };
    if row >= table_rows.len() {
        return true;
    }
    let cells = match table_rows[row].at_key("tableCells").as_array() {
        Some(v) => v,
        None => {
            return true;
        },
    };
    if col >= cells.len() {
        return true;
    }
    let cell_content = match cells[col].at_key("content").as_array() {
        Some(v) => v,
        None => {
            return true;
        },
    };
    if cell_content.len() == 0 {
        return true;
    }
    let start = opt_i64(cell_content[0].at_key("startIndex"), 0);
    if start == 9223372036854775807i64 {
        return false;
    }
    let end = opt_i64(cell_content[cell_content.len() - 1].at_key("endIndex"), start + 1);
    end > -9223372036854775808i64
}

/// Whether `find_link_range` computes for `doc` and `search` without overflow.
pub fn link_range_valid(doc: &JsonValue, search: &str) -> (r: bool)
    ensures
        r == link_range_ok(doc@, search@),
{
    match link_target_of(doc, search) {
        Some(start) => {
            let len = chars_of(search).len();
            start + len as i128 <= 9223372036854775807i128
        },
        None => true,
    }
}

} // verus!
