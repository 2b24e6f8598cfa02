//! The document layer: trusted wrappers around the `scraper` crate,
//! and the verified scan that flattens a parsed document into the
//! plain [`PageModel`] the extractor reads.
//!
//! What a parsed document holds is named, not restated: [`ElemTree`]
//! is the mathematical content of one element — tag name, class
//! markers, texts, child elements — and the uninterpreted functions
//! [`text_tree`], [`doc_tree`], [`elem_tree`] and [`tree_selected`]
//! name what parsing and the fixed selector queries yield. Each
//! trusted wrapper ties one call to those names; every decision on
//! what was read — class matching, structure, text handling — is made
//! in verified code, and the scan is proved to agree with the named
//! model, so [`extract_menu`] promises the full extraction contract
//! over the model of its input text.

use vstd::prelude::*;
use crate::date::Date;
use crate::menu::Menu;
use crate::page::{
    extract_from_page, extract_post, BlockNode, CellNode, DishRow, ExtraRow, FetcherError,
    PageModel, SectionNode, TableNode,
};
use crate::canteen::Canteen;
use crate::text::{ascii_ieq, join_sep, join_with, seq_views, str_ieq};

verus! {

#[verifier::external_type_specification]
#[verifier::external_body]
pub struct ExHtml(scraper::Html);

#[verifier::external_type_specification]
#[verifier::external_body]
pub struct ExElementRef<'a>(scraper::ElementRef<'a>);

/// The scanned content of one document element: its tag name, its
/// class markers, its first descendant text, its direct text
/// children, and its child elements.
pub ghost struct ElemTree {
    pub name: Seq<char>,
    pub classes: Seq<Seq<char>>,
    pub first_text: Option<Seq<char>>,
    pub texts: Seq<Seq<char>>,
    pub kids: Seq<ElemTree>,
}

/// The scanned content of the document that parsing the given text
/// yields; parsing is a function of the text alone.
pub uninterp spec fn text_tree(text: Seq<char>) -> ElemTree;

/// The scanned content of a parsed document.
pub uninterp spec fn doc_tree(d: scraper::Html) -> ElemTree;

/// The scanned content of one element of a parsed document.
pub uninterp spec fn elem_tree(e: scraper::ElementRef<'_>) -> ElemTree;

/// The contents of the elements that one of the fixed selector
/// patterns below picks inside an element with the given content, in
/// document order. The patterns used here read only tag names and
/// class markers, and only inside the element they are applied to, so
/// what they pick is a function of the scanned content and the
/// pattern.
pub uninterp spec fn tree_selected(t: ElemTree, pat: Seq<char>) -> Seq<ElemTree>;

/// Relies on scraper::Html::parse_document: parses markup text into a
/// document tree, deterministically in the text.
#[verifier::external_body]
fn parse_document(text: &str) -> (d: scraper::Html)
    ensures
        doc_tree(d) == text_tree(text@),
{
    scraper::Html::parse_document(text)
}

/// Relies on scraper::Selector::parse and Html::select with the fixed
/// day-section pattern: the day-section elements of the document, in
/// document order. The pattern always parses, so the error arm is
/// never taken.
#[verifier::external_body]
fn day_section_elems<'a>(doc: &'a scraper::Html) -> (r: Vec<scraper::ElementRef<'a>>)
    ensures
        r@.len() == tree_selected(doc_tree(*doc), "body div.accordion > div"@).len(),
        forall|i: int|
            0 <= i < r@.len() ==> (#[trigger] elem_tree(r@[i])) == tree_selected(
                doc_tree(*doc),
                "body div.accordion > div"@,
            )[i],
{
    match scraper::Selector::parse("body div.accordion > div") {
        Ok(sel) => doc.select(&sel).collect(),
        Err(_) => Vec::new(),
    }
}

/// Relies on scraper::Selector::parse and ElementRef::select with the
/// fixed pattern `h3 > a`: the title links below the element.
#[verifier::external_body]
fn title_elems<'a>(e: &scraper::ElementRef<'a>) -> (r: Vec<scraper::ElementRef<'a>>)
    ensures
        r@.len() == tree_selected(elem_tree(*e), "h3 > a"@).len(),
        forall|i: int|
            0 <= i < r@.len() ==> (#[trigger] elem_tree(r@[i])) == tree_selected(
                elem_tree(*e),
                "h3 > a"@,
            )[i],
{
    match scraper::Selector::parse("h3 > a") {
        Ok(sel) => e.select(&sel).collect(),
        Err(_) => Vec::new(),
    }
}

/// Relies on scraper::Selector::parse and ElementRef::select with the
/// fixed pattern `tbody > tr`: the body rows of a table.
#[verifier::external_body]
fn row_elems<'a>(e: &scraper::ElementRef<'a>) -> (r: Vec<scraper::ElementRef<'a>>)
    ensures
        r@.len() == tree_selected(elem_tree(*e), "tbody > tr"@).len(),
        forall|i: int|
            0 <= i < r@.len() ==> (#[trigger] elem_tree(r@[i])) == tree_selected(
                elem_tree(*e),
                "tbody > tr"@,
            )[i],
{
    match scraper::Selector::parse("tbody > tr") {
        Ok(sel) => e.select(&sel).collect(),
        Err(_) => Vec::new(),
    }
}

/// Relies on scraper::Selector::parse and ElementRef::select with the
/// fixed pattern `span.menue-category`: the category cells of a row.
#[verifier::external_body]
fn category_elems<'a>(e: &scraper::ElementRef<'a>) -> (r: Vec<scraper::ElementRef<'a>>)
    ensures
        r@.len() == tree_selected(elem_tree(*e), "span.menue-category"@).len(),
        forall|i: int|
            0 <= i < r@.len() ==> (#[trigger] elem_tree(r@[i])) == tree_selected(
                elem_tree(*e),
                "span.menue-category"@,
            )[i],
{
    match scraper::Selector::parse("span.menue-category") {
        Ok(sel) => e.select(&sel).collect(),
        Err(_) => Vec::new(),
    }
}

/// Relies on scraper::Selector::parse and ElementRef::select with the
/// fixed pattern `span.menue-desc > .expand-nutr`: the description
/// elements of a row.
#[verifier::external_body]
fn desc_elems<'a>(e: &scraper::ElementRef<'a>) -> (r: Vec<scraper::ElementRef<'a>>)
    ensures
        r@.len() == tree_selected(elem_tree(*e), "span.menue-desc > .expand-nutr"@).len(),
        forall|i: int|
            0 <= i < r@.len() ==> (#[trigger] elem_tree(r@[i])) == tree_selected(
                elem_tree(*e),
                "span.menue-desc > .expand-nutr"@,
            )[i],
{
    match scraper::Selector::parse("span.menue-desc > .expand-nutr") {
        Ok(sel) => e.select(&sel).collect(),
        Err(_) => Vec::new(),
    }
}

/// Relies on scraper::Selector::parse and ElementRef::select with the
/// fixed pattern `span.menue-price`: the price cells of a row.
#[verifier::external_body]
fn price_elems<'a>(e: &scraper::ElementRef<'a>) -> (r: Vec<scraper::ElementRef<'a>>)
    ensures
        r@.len() == tree_selected(elem_tree(*e), "span.menue-price"@).len(),
        forall|i: int|
            0 <= i < r@.len() ==> (#[trigger] elem_tree(r@[i])) == tree_selected(
                elem_tree(*e),
                "span.menue-price"@,
            )[i],
{
    match scraper::Selector::parse("span.menue-price") {
        Ok(sel) => e.select(&sel).collect(),
        Err(_) => Vec::new(),
    }
}

/// Relies on scraper::Selector::parse and ElementRef::select with the
/// fixed pattern `.menue-wrapper`: the extras wrappers below a row.
#[verifier::external_body]
fn wrapper_elems<'a>(e: &scraper::ElementRef<'a>) -> (r: Vec<scraper::ElementRef<'a>>)
    ensures
        r@.len() == tree_selected(elem_tree(*e), ".menue-wrapper"@).len(),
        forall|i: int|
            0 <= i < r@.len() ==> (#[trigger] elem_tree(r@[i])) == tree_selected(
                elem_tree(*e),
                ".menue-wrapper"@,
            )[i],
{
    match scraper::Selector::parse(".menue-wrapper") {
        Ok(sel) => e.select(&sel).collect(),
        Err(_) => Vec::new(),
    }
}

/// Relies on scraper::Selector::parse and ElementRef::select with the
/// fixed pattern `span.menue-item.extra`: the cells of an extras row.
#[verifier::external_body]
fn cell_elems<'a>(e: &scraper::ElementRef<'a>) -> (r: Vec<scraper::ElementRef<'a>>)
    ensures
        r@.len() == tree_selected(elem_tree(*e), "span.menue-item.extra"@).len(),
        forall|i: int|
            0 <= i < r@.len() ==> (#[trigger] elem_tree(r@[i])) == tree_selected(
                elem_tree(*e),
                "span.menue-item.extra"@,
            )[i],
{
    match scraper::Selector::parse("span.menue-item.extra") {
        Ok(sel) => e.select(&sel).collect(),
        Err(_) => Vec::new(),
    }
}

/// Relies on scraper::ElementRef::child_elements: the direct child
/// elements, in order.
#[verifier::external_body]
fn child_elements<'a>(e: &scraper::ElementRef<'a>) -> (r: Vec<scraper::ElementRef<'a>>)
    ensures
        r@.len() == elem_tree(*e).kids.len(),
        forall|i: int|
            0 <= i < r@.len() ==> (#[trigger] elem_tree(r@[i])) == elem_tree(*e).kids[i],
{
    e.child_elements().collect()
}

/// Relies on scraper::ElementRef::value and Element::name: the
/// element's tag name.
#[verifier::external_body]
fn elem_name(e: &scraper::ElementRef<'_>) -> (r: String)
    ensures
        r@ == elem_tree(*e).name,
{
    e.value().name().to_owned()
}

/// Relies on scraper::ElementRef::value and Element::classes: the
/// element's class markers, in the sorted, deduplicated order the
/// crate reports them in.
#[verifier::external_body]
fn elem_classes(e: &scraper::ElementRef<'_>) -> (r: Vec<String>)
    ensures
        seq_views(r@) == elem_tree(*e).classes,
{
    e.value().classes().map(|c| c.to_owned()).collect()
}

/// Relies on scraper::ElementRef::text: the first descendant text
/// node, when there is one.
#[verifier::external_body]
fn first_text(e: &scraper::ElementRef<'_>) -> (r: Option<String>)
    ensures
        match r {
            Some(t) => elem_tree(*e).first_text == Some(t@),
            None => elem_tree(*e).first_text is None,
        },
{
    e.text().next().map(|t| t.to_owned())
}

/// Relies on ego_tree::NodeRef::children and scraper::Node::as_text:
/// the direct text children of the element, in order.
#[verifier::external_body]
fn direct_texts(e: &scraper::ElementRef<'_>) -> (r: Vec<String>)
    ensures
        seq_views(r@) == elem_tree(*e).texts,
{
    e.children().filter_map(|n| n.value().as_text()).map(|t| t.to_string()).collect()
}

/// Whether an optional scanned string matches an optional model text.
pub open spec fn opt_text_matches(o: Option<String>, m: Option<Seq<char>>) -> bool {
    match (o, m) {
        (Some(s), Some(t)) => s@ == t,
        (None, None) => true,
        _ => false,
    }
}

/// The first text among the title links, in order.
pub open spec fn first_title(ts: Seq<ElemTree>) -> Option<Seq<char>>
    decreases ts.len(),
{
    if ts.len() == 0 {
        None
    } else {
        match ts[0].first_text {
            Some(t) => Some(t),
            None => first_title(ts.skip(1)),
        }
    }
}

proof fn lemma_first_title_skip(ts: Seq<ElemTree>, k: int)
    requires
        0 <= k <= ts.len(),
        forall|q: int| 0 <= q < k ==> (#[trigger] ts[q]).first_text is None,
    ensures
        first_title(ts) == first_title(ts.skip(k)),
    decreases k,
{
    if k > 0 {
        assert(ts.skip(1).skip(k - 1) =~= ts.skip(k));
        assert(forall|q: int| 0 <= q < k - 1 ==> (#[trigger] ts.skip(1)[q]) == ts[q + 1]);
        lemma_first_title_skip(ts.skip(1), k - 1);
    } else {
        assert(ts.skip(0) =~= ts);
    }
}

/// How a scanned dish row relates to the content of its row element:
/// the category, description and price fields read the fixed cells,
/// and the classes are the row's markers.
pub open spec fn dish_row_matches(r: DishRow, t: ElemTree) -> bool {
    let cats = tree_selected(t, "span.menue-category"@);
    let descs = tree_selected(t, "span.menue-desc > .expand-nutr"@);
    let prices = tree_selected(t, "span.menue-price"@);
    &&& match r.category {
        Some(c) => cats.len() > 0 && cats[0].first_text == Some(c@),
        None => cats.len() == 0 || cats[0].first_text is None,
    }
    &&& match r.description {
        Some(d) => descs.len() > 0 && d@ == join_sep(descs[0].texts, ""@),
        None => descs.len() == 0,
    }
    &&& match r.price {
        Some(p) => prices.len() > 0 && prices[0].first_text == Some(p@),
        None => prices.len() == 0 || prices[0].first_text is None,
    }
    &&& seq_views(r.classes@) == t.classes
}

/// How a scanned extras cell relates to its element's content.
pub open spec fn cell_tree_matches(c: CellNode, t: ElemTree) -> bool {
    &&& seq_views(c.classes@) == t.classes
    &&& opt_text_matches(c.first_text, t.first_text)
    &&& seq_views(c.texts@) == t.texts
}

/// How a scanned extras row relates to its wrapper element's content.
pub open spec fn extra_row_tree_matches(r: ExtraRow, t: ElemTree) -> bool {
    let cells = tree_selected(t, "span.menue-item.extra"@);
    &&& r.cells@.len() == cells.len()
    &&& forall|i: int| 0 <= i < cells.len() ==> cell_tree_matches(#[trigger] r.cells@[i], cells[i])
}

/// The extras wrappers below the given rows, row by row.
pub open spec fn wrappers_of(trs: Seq<ElemTree>) -> Seq<ElemTree>
    decreases trs.len(),
{
    if trs.len() == 0 {
        Seq::empty()
    } else {
        tree_selected(trs[0], ".menue-wrapper"@) + wrappers_of(trs.skip(1))
    }
}

proof fn lemma_wrappers_of_snoc(trs: Seq<ElemTree>, j: int)
    requires
        0 <= j < trs.len(),
    ensures
        wrappers_of(trs.take(j + 1)) =~= wrappers_of(trs.take(j)) + tree_selected(
            trs[j],
            ".menue-wrapper"@,
        ),
    decreases j,
{
    if j == 0 {
        let t1 = trs.take(1);
        assert(trs.take(0) =~= Seq::<ElemTree>::empty());
        assert(t1.len() == 1 && t1[0] == trs[0]);
        assert(t1.skip(1) =~= Seq::<ElemTree>::empty());
    } else {
        let rest = trs.skip(1);
        assert(trs.take(j + 1)[0] == trs[0] && trs.take(j)[0] == trs[0]);
        assert(trs.take(j + 1).skip(1) =~= rest.take(j));
        assert(trs.take(j).skip(1) =~= rest.take(j - 1));
        assert(rest[j - 1] == trs[j]);
        lemma_wrappers_of_snoc(rest, j - 1);
    }
}

/// How a scanned table relates to its element's content: the dish
/// rows read the body rows, and the extras rows read the wrappers
/// below those rows.
pub open spec fn table_tree_matches(tb: TableNode, t: ElemTree) -> bool {
    let rows = tree_selected(t, "tbody > tr"@);
    let wraps = wrappers_of(rows);
    &&& seq_views(tb.classes@) == t.classes
    &&& tb.dish_rows@.len() == rows.len()
    &&& forall|i: int| 0 <= i < rows.len() ==> dish_row_matches(#[trigger] tb.dish_rows@[i], rows[i])
    &&& tb.extra_rows@.len() == wraps.len()
    &&& forall|i: int|
        0 <= i < wraps.len() ==> extra_row_tree_matches(#[trigger] tb.extra_rows@[i], wraps[i])
}

/// How scanned tables relate to a list of child elements: exactly the
/// children named `table` are read, in order.
pub open spec fn tables_tree_match(tbs: Seq<TableNode>, kids: Seq<ElemTree>) -> bool
    decreases kids.len(),
{
    if kids.len() == 0 {
        tbs.len() == 0
    } else if ascii_ieq(kids[0].name, "table"@) {
        &&& tbs.len() > 0
        &&& table_tree_matches(tbs[0], kids[0])
        &&& tables_tree_match(tbs.skip(1), kids.skip(1))
    } else {
        tables_tree_match(tbs, kids.skip(1))
    }
}

/// How scanned blocks relate to a section's child elements: exactly
/// the children named `div` are read, in order.
pub open spec fn blocks_tree_match(bs: Seq<BlockNode>, kids: Seq<ElemTree>) -> bool
    decreases kids.len(),
{
    if kids.len() == 0 {
        bs.len() == 0
    } else if ascii_ieq(kids[0].name, "div"@) {
        &&& bs.len() > 0
        &&& tables_tree_match(bs[0].tables@, kids[0].kids)
        &&& blocks_tree_match(bs.skip(1), kids.skip(1))
    } else {
        blocks_tree_match(bs, kids.skip(1))
    }
}

/// How a scanned day-section relates to its element's content: the
/// title is the first text of its title links, and the blocks are its
/// `div` children.
pub open spec fn section_tree_matches(s: SectionNode, t: ElemTree) -> bool {
    &&& opt_text_matches(s.title, first_title(tree_selected(t, "h3 > a"@)))
    &&& blocks_tree_match(s.blocks@, t.kids)
}

/// How a scanned page relates to a document's content: its sections
/// are the day-section elements, in order.
pub open spec fn page_tree_matches(p: PageModel, root: ElemTree) -> bool {
    let secs = tree_selected(root, "body div.accordion > div"@);
    &&& p.sections@.len() == secs.len()
    &&& forall|i: int|
        0 <= i < secs.len() ==> section_tree_matches(#[trigger] p.sections@[i], secs[i])
}

/// How a scanned page relates to the text it was parsed from.
pub open spec fn page_from_text(p: PageModel, text: Seq<char>) -> bool {
    page_tree_matches(p, text_tree(text))
}

/// The title of a day-section: the first text found across its title
/// links, in order.
fn title_of(titles: &Vec<scraper::ElementRef<'_>>, Ghost(tts): Ghost<Seq<ElemTree>>) -> (r: Option<
    String,
>)
    requires
        titles@.len() == tts.len(),
        forall|i: int| 0 <= i < titles@.len() ==> (#[trigger] elem_tree(titles@[i])) == tts[i],
    ensures
        opt_text_matches(r, first_title(tts)),
{
    let n = titles.len();
    let mut k: usize = 0;
    while k < n
        invariant
            0 <= k <= n == titles@.len() == tts.len(),
            forall|i: int| 0 <= i < titles@.len() ==> (#[trigger] elem_tree(titles@[i])) == tts[i],
            forall|q: int| 0 <= q < k ==> (#[trigger] tts[q]).first_text is None,
        decreases n - k,
    {
        match first_text(&titles[k]) {
            Some(t) => {
                proof {
                    lemma_first_title_skip(tts, k as int);
                    assert(tts.skip(k as int)[0] == tts[k as int]);
                }
                return Some(t);
            },
            None => {},
        }
        k = k + 1;
    }
    proof {
        lemma_first_title_skip(tts, n as int);
    }
    None
}

/// Reads the dish rows of a table element.
fn scan_dish_rows(tbl: &scraper::ElementRef<'_>) -> (r: Vec<DishRow>)
    ensures
        r@.len() == tree_selected(elem_tree(*tbl), "tbody > tr"@).len(),
        forall|i: int|
            0 <= i < r@.len() ==> dish_row_matches(
                #[trigger] r@[i],
                tree_selected(elem_tree(*tbl), "tbody > tr"@)[i],
            ),
{
    let ghost rts = tree_selected(elem_tree(*tbl), "tbody > tr"@);
    let rows = row_elems(tbl);
    let mut out: Vec<DishRow> = Vec::new();
    let n = rows.len();
    let mut i: usize = 0;
    while i < n
        invariant
            0 <= i <= n == rows@.len() == rts.len(),
            out@.len() == i,
            forall|q: int| 0 <= q < rows@.len() ==> (#[trigger] elem_tree(rows@[q])) == rts[q],
            forall|q: int| 0 <= q < i ==> dish_row_matches(#[trigger] out@[q], rts[q]),
        decreases n - i,
    {
        let row = &rows[i];
        let cats = category_elems(row);
        let category = if cats.len() > 0 {
            first_text(&cats[0])
        } else {
            None
        };
        let descs = desc_elems(row);
        let description = if descs.len() > 0 {
            let parts = direct_texts(&descs[0]);
            Some(join_with(&parts, ""))
        } else {
            None
        };
        let prices = price_elems(row);
        let price = if prices.len() > 0 {
            first_text(&prices[0])
        } else {
            None
        };
        let classes = elem_classes(row);
        let dr = DishRow { category, description, price, classes };
        proof {
            assert(dish_row_matches(dr, rts[i as int]));
        }
        out.push(dr);
        i = i + 1;
    }
    out
}

/// Reads one extras row from its wrapper element.
fn scan_extra_row(w: &scraper::ElementRef<'_>) -> (r: ExtraRow)
    ensures
        extra_row_tree_matches(r, elem_tree(*w)),
{
    let ghost cts = tree_selected(elem_tree(*w), "span.menue-item.extra"@);
    let cells_raw = cell_elems(w);
    let mut cells: Vec<CellNode> = Vec::new();
    let cn = cells_raw.len();
    let mut j: usize = 0;
    while j < cn
        invariant
            0 <= j <= cn == cells_raw@.len() == cts.len(),
            cells@.len() == j,
            forall|q: int|
                0 <= q < cells_raw@.len() ==> (#[trigger] elem_tree(cells_raw@[q])) == cts[q],
            forall|q: int| 0 <= q < j ==> cell_tree_matches(#[trigger] cells@[q], cts[q]),
        decreases cn - j,
    {
        let cell = &cells_raw[j];
        let c = CellNode {
            classes: elem_classes(cell),
            first_text: first_text(cell),
            texts: direct_texts(cell),
        };
        cells.push(c);
        j = j + 1;
    }
    ExtraRow { cells }
}

/// Reads the extras rows of a table element: the wrappers below its
/// body rows, row by row.
fn scan_extra_rows(tbl: &scraper::ElementRef<'_>) -> (r: Vec<ExtraRow>)
    ensures
        ({
            let wraps = wrappers_of(tree_selected(elem_tree(*tbl), "tbody > tr"@));
            r@.len() == wraps.len() && (forall|i: int|
                0 <= i < wraps.len() ==> extra_row_tree_matches(#[trigger] r@[i], wraps[i]))
        }),
{
    let ghost rts = tree_selected(elem_tree(*tbl), "tbody > tr"@);
    let rows = row_elems(tbl);
    let mut out: Vec<ExtraRow> = Vec::new();
    let n = rows.len();
    let mut i: usize = 0;
    proof {
        assert(rts.take(0) =~= Seq::<ElemTree>::empty());
    }
    while i < n
        invariant
            0 <= i <= n == rows@.len() == rts.len(),
            forall|q: int| 0 <= q < rows@.len() ==> (#[trigger] elem_tree(rows@[q])) == rts[q],
            out@.len() == wrappers_of(rts.take(i as int)).len(),
            forall|q: int|
                0 <= q < out@.len() ==> extra_row_tree_matches(
                    #[trigger] out@[q],
                    wrappers_of(rts.take(i as int))[q],
                ),
        decreases n - i,
    {
        let ghost before = wrappers_of(rts.take(i as int));
        let ghost chunk = tree_selected(rts[i as int], ".menue-wrapper"@);
        let wraps = wrapper_elems(&rows[i]);
        let wn = wraps.len();
        let mut k: usize = 0;
        while k < wn
            invariant
                0 <= k <= wn == wraps@.len() == chunk.len(),
                forall|q: int|
                    0 <= q < wraps@.len() ==> (#[trigger] elem_tree(wraps@[q])) == chunk[q],
                out@.len() == before.len() + k,
                forall|q: int|
                    0 <= q < before.len() ==> extra_row_tree_matches(
                        #[trigger] out@[q],
                        before[q],
                    ),
                forall|q: int|
                    0 <= q < k ==> extra_row_tree_matches(
                        #[trigger] out@[before.len() + q],
                        chunk[q],
                    ),
            decreases wn - k,
        {
            let er = scan_extra_row(&wraps[k]);
            out.push(er);
            k = k + 1;
        }
        proof {
            lemma_wrappers_of_snoc(rts, i as int);
            assert(wrappers_of(rts.take(i + 1)) =~= before + chunk);
            assert forall|q: int| 0 <= q < out@.len() implies extra_row_tree_matches(
                #[trigger] out@[q],
                wrappers_of(rts.take(i + 1))[q],
            ) by {
                if q < before.len() {
                    assert(wrappers_of(rts.take(i + 1))[q] == before[q]);
                } else {
                    let q2 = q - before.len();
                    assert(extra_row_tree_matches(out@[before.len() + q2], chunk[q2]));
                    assert(wrappers_of(rts.take(i + 1))[q] == chunk[q2]);
                }
            }
        }
        i = i + 1;
    }
    proof {
        assert(rts.take(n as int) =~= rts);
    }
    out
}

/// Reads one table element.
fn scan_table(tbl: &scraper::ElementRef<'_>) -> (r: TableNode)
    ensures
        table_tree_matches(r, elem_tree(*tbl)),
{
    TableNode {
        classes: elem_classes(tbl),
        dish_rows: scan_dish_rows(tbl),
        extra_rows: scan_extra_rows(tbl),
    }
}

/// Reads the tables among the child elements from position `k` on.
fn scan_tables(
    kids: &Vec<scraper::ElementRef<'_>>,
    k: usize,
    Ghost(kt): Ghost<Seq<ElemTree>>,
) -> (r: Vec<TableNode>)
    requires
        k <= kids@.len() == kt.len(),
        forall|i: int| 0 <= i < kids@.len() ==> (#[trigger] elem_tree(kids@[i])) == kt[i],
    ensures
        tables_tree_match(r@, kt.skip(k as int)),
    decreases kids@.len() - k,
{
    if k == kids.len() {
        let r: Vec<TableNode> = Vec::new();
        proof {
            assert(kt.skip(k as int).len() == 0);
        }
        r
    } else {
        proof {
            assert(kt.skip(k as int)[0] == kt[k as int]);
            assert(kt.skip(k as int).skip(1) =~= kt.skip(k + 1));
        }
        let name = elem_name(&kids[k]);
        if str_ieq(name.as_str(), "table") {
            let tb = scan_table(&kids[k]);
            let mut rest = scan_tables(kids, k + 1, Ghost(kt));
            let ghost old_rest = rest@;
            rest.insert(0, tb);
            proof {
                assert(rest@[0] == tb);
                assert(rest@.skip(1) =~= old_rest);
            }
            rest
        } else {
            scan_tables(kids, k + 1, Ghost(kt))
        }
    }
}

/// Reads the blocks — the `div` children — of a day-section from
/// position `k` on.
fn scan_blocks(
    kids: &Vec<scraper::ElementRef<'_>>,
    k: usize,
    Ghost(kt): Ghost<Seq<ElemTree>>,
) -> (r: Vec<BlockNode>)
    requires
        k <= kids@.len() == kt.len(),
        forall|i: int| 0 <= i < kids@.len() ==> (#[trigger] elem_tree(kids@[i])) == kt[i],
    ensures
        blocks_tree_match(r@, kt.skip(k as int)),
    decreases kids@.len() - k,
{
    if k == kids.len() {
        let r: Vec<BlockNode> = Vec::new();
        proof {
            assert(kt.skip(k as int).len() == 0);
        }
        r
    } else {
        proof {
            assert(kt.skip(k as int)[0] == kt[k as int]);
            assert(kt.skip(k as int).skip(1) =~= kt.skip(k + 1));
        }
        let name = elem_name(&kids[k]);
        if str_ieq(name.as_str(), "div") {
            let tbl_kids = child_elements(&kids[k]);
            let ghost tkt = elem_tree(kids@[k as int]).kids;
            proof {
                assert(tkt.skip(0) =~= tkt);
            }
            let tables = scan_tables(&tbl_kids, 0, Ghost(tkt));
            let b = BlockNode { tables };
            let mut rest = scan_blocks(kids, k + 1, Ghost(kt));
            let ghost old_rest = rest@;
            rest.insert(0, b);
            proof {
                assert(rest@[0] == b);
                assert(rest@.skip(1) =~= old_rest);
            }
            rest
        } else {
            scan_blocks(kids, k + 1, Ghost(kt))
        }
    }
}

/// Reads one day-section element.
fn scan_section(sec: &scraper::ElementRef<'_>) -> (r: SectionNode)
    ensures
        section_tree_matches(r, elem_tree(*sec)),
{
    let titles = title_elems(sec);
    let ghost tts = tree_selected(elem_tree(*sec), "h3 > a"@);
    let title = title_of(&titles, Ghost(tts));
    let kids = child_elements(sec);
    let ghost kt = elem_tree(*sec).kids;
    proof {
        assert(kt.skip(0) =~= kt);
    }
    let blocks = scan_blocks(&kids, 0, Ghost(kt));
    SectionNode { title, blocks }
}

/// Flattens a parsed document into the plain page model.
fn scan_page(doc: &scraper::Html) -> (r: PageModel)
    ensures
        page_tree_matches(r, doc_tree(*doc)),
{
    let ghost sts = tree_selected(doc_tree(*doc), "body div.accordion > div"@);
    let secs = day_section_elems(doc);
    let mut sections: Vec<SectionNode> = Vec::new();
    let sn = secs.len();
    let mut i: usize = 0;
    while i < sn
        invariant
            0 <= i <= sn == secs@.len() == sts.len(),
            sections@.len() == i,
            forall|q: int| 0 <= q < secs@.len() ==> (#[trigger] elem_tree(secs@[q])) == sts[q],
            forall|q: int| 0 <= q < i ==> section_tree_matches(#[trigger] sections@[q], sts[q]),
        decreases sn - i,
    {
        let s = scan_section(&secs[i]);
        sections.push(s);
        i = i + 1;
    }
    PageModel { sections }
}

/// Extracts the daily menu for `date` at `site` from fetched markup
/// text: parses the document, flattens it, and runs the extractor.
/// The result is the extraction outcome on the page that the text's
/// document model yields, so extraction never reports a transport
/// failure.
pub fn extract_menu(text: &str, site: Canteen, date: Date) -> (r: Result<Menu, FetcherError>)
    ensures
        exists|page: PageModel|
            #[trigger] page_from_text(page, text@) && extract_post(page, site, date, r),
        r matches Err(e) ==> !(e is Transport),
{
    let doc = parse_document(text);
    let page = scan_page(&doc);
    let r = extract_from_page(&page, site, date);
    proof {
        assert(page_from_text(page, text@));
        crate::page::lemma_extract_err_shape(page, site, date, r);
    }
    r
}

} // verus!
