//! The extractor: from a plain model of the fetched page to a [`Menu`].
//!
//! The page model holds, as plain values, exactly what the extraction
//! rules read: the day-sections with their title text, the blocks and
//! tables below each section with their class markers, and the text
//! fragments of each table row. Extraction is all-or-nothing: a
//! malformed row fails the whole request, and no partial menu is ever
//! produced.

use vstd::prelude::*;
use vstd::string::*;
use crate::date::{scan_date_spec, scan_date, Date};
use crate::menu::{sorted_cats, unique_cat_keys, Dish, Label, Menu, MenuExtra};
use crate::canteen::Canteen;
use crate::text::{
    ascii_ieq, first_token_of, first_token_spec, join_sep, join_with, seq_views, split_char,
    split_trim, str_eq, str_ieq, trim_all, trim_of, trim_spec,
};

verus! {

/// How the menu service fails: the canteen is closed that day (an
/// expected business condition), the page lacks an expected element (a
/// structural fault), or the transport failed before any markup was
/// seen.
#[derive(Clone, PartialEq, Eq, Debug)]
pub enum FetcherError {
    /// No day-section of the page carries the requested date.
    CanteenClosed { canteen: Canteen, date: Date },
    /// An expected element, named by tag and class markers, is missing.
    ElementNotFound { tag: String, cls: Vec<String> },
    /// The document could not be retrieved at all.
    Transport { detail: String },
}

/// Whether `e` is the structural error naming `tag` and `cls`.
pub open spec fn en_err(e: FetcherError, tag: Seq<char>, cls: Seq<Seq<char>>) -> bool {
    &&& e matches FetcherError::ElementNotFound { tag: t, cls: c } && t@ == tag && seq_views(c@)
        == cls
}

/// One row of the dish table, as read from the page: the first text of
/// its category cell, the concatenated direct text of its description
/// element, the first text of its price cell, and the class markers on
/// the row.
#[derive(Clone, PartialEq, Eq, Debug)]
pub struct DishRow {
    pub category: Option<String>,
    pub description: Option<String>,
    pub price: Option<String>,
    pub classes: Vec<String>,
}

/// One cell of an extras row: its class markers, its first text, and
/// its direct text fragments.
#[derive(Clone, PartialEq, Eq, Debug)]
pub struct CellNode {
    pub classes: Vec<String>,
    pub first_text: Option<String>,
    pub texts: Vec<String>,
}

/// One row of the extras table: its cells.
#[derive(Clone, PartialEq, Eq, Debug)]
pub struct ExtraRow {
    pub cells: Vec<CellNode>,
}

/// One table below a day-section: its class markers and its rows, read
/// both as dish rows and as extras rows; which reading applies is
/// decided by the table's markers.
#[derive(Clone, PartialEq, Eq, Debug)]
pub struct TableNode {
    pub classes: Vec<String>,
    pub dish_rows: Vec<DishRow>,
    pub extra_rows: Vec<ExtraRow>,
}

/// One block below a day-section: its tables.
#[derive(Clone, PartialEq, Eq, Debug)]
pub struct BlockNode {
    pub tables: Vec<TableNode>,
}

/// One day-section: its title text, and its blocks.
#[derive(Clone, PartialEq, Eq, Debug)]
pub struct SectionNode {
    pub title: Option<String>,
    pub blocks: Vec<BlockNode>,
}

/// The whole page: its day-sections in document order.
#[derive(Clone, PartialEq, Eq, Debug)]
pub struct PageModel {
    pub sections: Vec<SectionNode>,
}

/// A day-section matches the target date when its title carries that
/// date.
pub open spec fn section_matches_spec(s: SectionNode, date: Date) -> bool {
    match s.title {
        Some(t) => scan_date_spec(t@) == Some(date),
        None => false,
    }
}

/// The first section at or after `i` that matches the date and has a
/// block, or `-1`.
pub open spec fn first_usable_from(secs: Seq<SectionNode>, date: Date, i: int) -> int
    decreases secs.len() - i,
    when 0 <= i
{
    if i >= secs.len() {
        -1
    } else if section_matches_spec(secs[i], date) && secs[i].blocks@.len() > 0 {
        i
    } else {
        first_usable_from(secs, date, i + 1)
    }
}

proof fn lemma_first_usable_step(secs: Seq<SectionNode>, date: Date, i: int, j: int)
    requires
        0 <= i <= j,
        forall|k: int|
            i <= k < j ==> !(section_matches_spec(secs[k], date) && secs[k].blocks@.len() > 0),
    ensures
        first_usable_from(secs, date, i) == first_usable_from(secs, date, j),
    decreases j - i,
{
    if i < j {
        if i >= secs.len() {
            assert(first_usable_from(secs, date, j) == -1);
        } else {
            lemma_first_usable_step(secs, date, i + 1, j);
        }
    }
}

/// A page whose day-sections carry no matching date has no usable
/// section, whatever else the page holds.
pub proof fn lemma_no_matching_date(secs: Seq<SectionNode>, date: Date, i: int)
    requires
        0 <= i,
        forall|k: int| 0 <= k < secs.len() ==> !section_matches_spec(secs[k], date),
    ensures
        first_usable_from(secs, date, i) == -1,
    decreases secs.len() - i,
{
    if i < secs.len() {
        lemma_no_matching_date(secs, date, i + 1);
    }
}

/// Whether the table carries class marker `m`, compared without regard
/// to ASCII case.
pub open spec fn table_marked(t: TableNode, m: Seq<char>) -> bool {
    exists|k: int| 0 <= k < t.classes@.len() && ascii_ieq(t.classes@[k]@, m)
}

/// The last table carrying marker `m`, or `-1`; when a block holds
/// several such tables the last one is the one read.
pub open spec fn last_marked(ts: Seq<TableNode>, m: Seq<char>) -> int
    decreases ts.len(),
{
    if ts.len() == 0 {
        -1
    } else if table_marked(ts[ts.len() - 1], m) {
        ts.len() - 1
    } else {
        last_marked(ts.take(ts.len() - 1), m)
    }
}

proof fn lemma_last_marked_prefix(ts: Seq<TableNode>, m: Seq<char>, i: int)
    requires
        0 <= i <= ts.len(),
        forall|k: int| i <= k < ts.len() ==> !table_marked(ts[k], m),
    ensures
        last_marked(ts, m) == last_marked(ts.take(i), m),
    decreases ts.len() - i,
{
    if i == ts.len() {
        assert(ts.take(i) =~= ts);
    } else {
        let t = ts.take(ts.len() - 1);
        assert(forall|k: int| i <= k < t.len() ==> t[k] == ts[k]);
        lemma_last_marked_prefix(t, m, i);
        assert(t.take(i) =~= ts.take(i));
    }
}

fn table_has_marker(t: &TableNode, m: &str) -> (r: bool)
    ensures
        r == table_marked(*t, m@),
{
    let n = t.classes.len();
    let mut k: usize = 0;
    while k < n
        invariant
            0 <= k <= n == t.classes@.len(),
            forall|q: int| 0 <= q < k ==> !ascii_ieq(t.classes@[q]@, m@),
        decreases n - k,
    {
        if str_ieq(t.classes[k].as_str(), m) {
            return true;
        }
        k = k + 1;
    }
    false
}

/// Index of the last table carrying marker `m`, scanning from the end.
fn find_last_marked(ts: &Vec<TableNode>, m: &str) -> (r: Option<usize>)
    ensures
        match r {
            Some(i) => last_marked(ts@, m@) == i as int && i < ts@.len(),
            None => last_marked(ts@, m@) == -1,
        },
{
    let n = ts.len();
    let mut j: usize = n;
    while j > 0 && !table_has_marker(&ts[j - 1], m)
        invariant
            0 <= j <= n == ts@.len(),
            forall|k: int| j <= k < n ==> !table_marked(ts@[k], m@),
        decreases j,
    {
        j = j - 1;
    }
    proof {
        lemma_last_marked_prefix(ts@, m@, j as int);
    }
    if j == 0 {
        proof {
            assert(ts@.take(0) =~= Seq::<TableNode>::empty());
        }
        None
    } else {
        proof {
            let t = ts@.take(j as int);
            assert(t[t.len() - 1] == ts@[j - 1]);
        }
        Some(j - 1)
    }
}

/// The labels denoted by the recognized class markers of a row, in the
/// order found; unrecognized markers are ignored.
pub open spec fn labels_of_classes(cls: Seq<String>) -> Seq<Label>
    decreases cls.len(),
{
    if cls.len() == 0 {
        Seq::empty()
    } else {
        let rest = labels_of_classes(cls.skip(1));
        match Label::of_class_spec(cls[0]@) {
            Some(l) => seq![l] + rest,
            None => rest,
        }
    }
}

fn labels_from(cls: &Vec<String>, k: usize) -> (r: Vec<Label>)
    requires
        k <= cls@.len(),
    ensures
        r@ == labels_of_classes(cls@.skip(k as int)),
    decreases cls@.len() - k,
{
    if k == cls.len() {
        let r: Vec<Label> = Vec::new();
        proof {
            assert(cls@.skip(k as int).len() == 0);
        }
        r
    } else {
        let mut rest = labels_from(cls, k + 1);
        proof {
            assert(cls@.skip(k as int)[0] == cls@[k as int]);
            assert(cls@.skip(k as int).skip(1) =~= cls@.skip(k + 1));
        }
        match Label::of_class(cls[k].as_str()) {
            Some(l) => {
                rest.insert(0, l);
                proof {
                    assert(rest@ =~= seq![l] + labels_of_classes(cls@.skip(k + 1)));
                }
                rest
            },
            None => rest,
        }
    }
}

/// Whether a dish row carries everything a dish needs: a category cell
/// whose text has a first token, and a description element.
pub open spec fn dish_row_ok(row: DishRow) -> bool {
    &&& match row.category {
        Some(c) => first_token_spec(c@) is Some,
        None => false,
    }
    &&& row.description is Some
}

/// The error a malformed dish row causes: a missing category cell or
/// token names the category span; a missing description element names
/// the description span.
pub open spec fn dish_row_fail(row: DishRow, e: FetcherError) -> bool {
    match row.category {
        Some(c) => {
            if first_token_spec(c@) is None {
                en_err(e, "span"@, seq!["menue-category"@])
            } else if row.description is None {
                en_err(e, "span"@, seq!["menue-desc"@, "expand-nutr"@])
            } else {
                false
            }
        },
        None => en_err(e, "span"@, seq!["menue-category"@]),
    }
}

/// How a well-formed dish row turns into a dish: the description
/// splits on `|` into the trimmed name and the trimmed ingredient
/// fragments; the labels come from the recognized class markers in
/// order; the price is the trimmed price text when one is present.
pub open spec fn dish_row_dish_ok(row: DishRow, d: Dish) -> bool {
    match row.description {
        Some(desc) => {
            let parts = trim_all(split_char(desc@, '|'));
            &&& d.name@ == parts[0]
            &&& seq_views(d.ingreds@) == parts.skip(1)
            &&& d.labels@ == labels_of_classes(row.classes@)
            &&& match (row.price, d.price) {
                (Some(p), Some(q)) => q@ == trim_spec(p@),
                (None, None) => true,
                _ => false,
            }
        },
        None => false,
    }
}

/// How a well-formed dish row turns into a category key and a dish:
/// the key is the first token of the category text.
pub open spec fn dish_row_pair_ok(row: DishRow, cat: String, d: Dish) -> bool {
    match row.category {
        Some(c) => first_token_spec(c@) == Some(cat@) && dish_row_dish_ok(row, d),
        None => false,
    }
}

/// Parses one dish row into its category key and dish, or fails on the
/// first missing required part.
pub fn parse_menu_dish(row: &DishRow) -> (r: Result<(String, Dish), FetcherError>)
    ensures
        dish_row_ok(*row) ==> (r matches Ok(p) && dish_row_pair_ok(*row, p.0, p.1)),
        !dish_row_ok(*row) ==> (r matches Err(e) && dish_row_fail(*row, e)),
{
    let cat_text = match row.category.as_ref() {
        Some(c) => c,
        None => {
            return Err(missing_span_error("menue-category"));
        },
    };
    let cat = match first_token_of(cat_text.as_str()) {
        Some(t) => t,
        None => {
            return Err(missing_span_error("menue-category"));
        },
    };
    let desc = match row.description.as_ref() {
        Some(d) => d,
        None => {
            let mut cls: Vec<String> = Vec::new();
            cls.push(String::from_str("menue-desc"));
            cls.push(String::from_str("expand-nutr"));
            proof {
                assert(seq_views(cls@) =~= seq!["menue-desc"@, "expand-nutr"@]);
            }
            let e = FetcherError::ElementNotFound { tag: String::from_str("span"), cls };
            proof {
                assert(dish_row_fail(*row, e));
            }
            return Err(e);
        },
    };
    let mut parts = split_trim(desc.as_str(), '|');
    let name = parts.remove(0);
    proof {
        let all = trim_all(split_char(desc@, '|'));
        assert(name@ == seq_views(parts@.insert(0, name))[0]);
        assert(seq_views(parts@.insert(0, name))[0] == all[0]);
        assert(seq_views(parts@) =~= all.skip(1)) by {
            assert(forall|i: int|
                0 <= i < parts@.len() ==> seq_views(parts@)[i] == seq_views(
                    parts@.insert(0, name),
                )[i + 1]);
        }
    }
    let labels = labels_from(&row.classes, 0);
    proof {
        assert(row.classes@.skip(0) =~= row.classes@);
    }
    let price = match row.price.as_ref() {
        Some(p) => Some(trim_of(p.as_str())),
        None => None,
    };
    let dish = Dish { name, ingreds: parts, labels, price };
    Ok((cat, dish))
}

fn missing_span_error(marker: &str) -> (e: FetcherError)
    ensures
        en_err(e, "span"@, seq![marker@]),
{
    let mut cls: Vec<String> = Vec::new();
    cls.push(marker.to_owned());
    proof {
        assert(seq_views(cls@) =~= seq![marker@]);
    }
    let e = FetcherError::ElementNotFound { tag: String::from_str("span"), cls };
    e
}

/// Parses every dish row in order; the first malformed row fails the
/// whole table.
pub fn parse_menu_table(rows: &Vec<DishRow>) -> (r: Result<
    Vec<(String, Dish)>,
    FetcherError,
>)
    ensures
        r is Ok <==> !some_dish_row_bad(rows@),
        r matches Ok(pairs) ==> (pairs@.len() == rows@.len() && (forall|i: int|
            0 <= i < rows@.len() ==> dish_row_pair_ok(
                #[trigger] rows@[i],
                pairs@[i].0,
                pairs@[i].1,
            ))),
        r matches Err(e) ==> first_dish_fail(rows@, e),
{
    let mut pairs: Vec<(String, Dish)> = Vec::new();
    let n = rows.len();
    let mut j: usize = 0;
    while j < n
        invariant
            0 <= j <= n == rows@.len(),
            pairs@.len() == j,
            forall|i: int| 0 <= i < j ==> dish_row_ok(rows@[i]),
            forall|i: int|
                0 <= i < j ==> dish_row_pair_ok(rows@[i], pairs@[i].0, pairs@[i].1),
        decreases n - j,
    {
        match parse_menu_dish(&rows[j]) {
            Ok(p) => {
                pairs.push(p);
            },
            Err(e) => {
                proof {
                    assert(!dish_row_ok(rows@[j as int]) && dish_row_fail(rows@[j as int], e));
                    assert(some_dish_row_bad(rows@));
                    assert(first_dish_fail(rows@, e));
                }
                return Err(e);
            },
        }
        j = j + 1;
    }
    Ok(pairs)
}


/// Whether the cell carries class marker `m`, compared without regard
/// to ASCII case.
pub open spec fn cell_marked(c: CellNode, m: Seq<char>) -> bool {
    exists|k: int| 0 <= k < c.classes@.len() && ascii_ieq(c.classes@[k]@, m)
}

/// The first cell at or after `i` carrying marker `m`, or `-1`.
pub open spec fn first_cell_from(cells: Seq<CellNode>, m: Seq<char>, i: int) -> int
    decreases cells.len() - i,
    when 0 <= i
{
    if i >= cells.len() {
        -1
    } else if cell_marked(cells[i], m) {
        i
    } else {
        first_cell_from(cells, m, i + 1)
    }
}

proof fn lemma_first_cell_step(cells: Seq<CellNode>, m: Seq<char>, i: int, j: int)
    requires
        0 <= i <= j,
        forall|k: int| i <= k < j ==> !cell_marked(cells[k], m),
    ensures
        first_cell_from(cells, m, i) == first_cell_from(cells, m, j),
    decreases j - i,
{
    if i < j {
        if i >= cells.len() {
            assert(first_cell_from(cells, m, j) == -1);
        } else {
            lemma_first_cell_step(cells, m, i + 1, j);
        }
    }
}

fn cell_has_marker(c: &CellNode, m: &str) -> (r: bool)
    ensures
        r == cell_marked(*c, m@),
{
    let n = c.classes.len();
    let mut k: usize = 0;
    while k < n
        invariant
            0 <= k <= n == c.classes@.len(),
            forall|q: int| 0 <= q < k ==> !ascii_ieq(c.classes@[q]@, m@),
        decreases n - k,
    {
        if str_ieq(c.classes[k].as_str(), m) {
            return true;
        }
        k = k + 1;
    }
    false
}

fn find_first_cell(cells: &Vec<CellNode>, m: &str) -> (r: Option<usize>)
    ensures
        match r {
            Some(i) => first_cell_from(cells@, m@, 0) == i as int && i < cells@.len(),
            None => first_cell_from(cells@, m@, 0) == -1,
        },
{
    let n = cells.len();
    let mut i: usize = 0;
    while i < n && !cell_has_marker(&cells[i], m)
        invariant
            0 <= i <= n == cells@.len(),
            forall|k: int| 0 <= k < i ==> !cell_marked(cells@[k], m@),
        decreases n - i,
    {
        i = i + 1;
    }
    proof {
        lemma_first_cell_step(cells@, m@, 0, i as int);
    }
    if i < n {
        Some(i)
    } else {
        None
    }
}

/// The "or"-joined description of an extras row: no line yields the
/// empty text, one line is itself, and several lines join all but the
/// last with `", "` and append `" oder "` and the last line.
pub open spec fn extra_desc_spec(lines: Seq<Seq<char>>) -> Seq<char> {
    if lines.len() == 0 {
        Seq::empty()
    } else if lines.len() == 1 {
        lines[0]
    } else {
        join_sep(lines.take(lines.len() - 1), ", "@) + " oder "@ + lines[lines.len() - 1]
    }
}

/// An extras row is well-formed when it has a description cell; the
/// category cell is optional.
pub open spec fn extra_row_ok(row: ExtraRow) -> bool {
    first_cell_from(row.cells@, "menue-desc"@, 0) != -1
}

/// The category of an extras row: the trimmed first text of its first
/// category cell, or empty when there is no such cell or text.
pub open spec fn extra_row_cat(row: ExtraRow) -> Seq<char> {
    let i = first_cell_from(row.cells@, "menue-category"@, 0);
    if i == -1 {
        Seq::empty()
    } else {
        match row.cells@[i].first_text {
            Some(t) => trim_spec(t@),
            None => Seq::empty(),
        }
    }
}

/// The description of a well-formed extras row: its description cell's
/// trimmed text fragments, "or"-joined.
pub open spec fn extra_row_desc(row: ExtraRow) -> Seq<char> {
    let i = first_cell_from(row.cells@, "menue-desc"@, 0);
    extra_desc_spec(trim_all(seq_views(row.cells@[i].texts@)))
}

/// Parses one extras row; only a missing description cell fails it.
pub fn parse_extra_row(row: &ExtraRow) -> (r: Result<MenuExtra, FetcherError>)
    ensures
        extra_row_ok(*row) ==> (r matches Ok(x) && x.category@ == extra_row_cat(*row) && x.extra@
            == extra_row_desc(*row)),
        !extra_row_ok(*row) ==> (r matches Err(e) && en_err(e, "span"@, seq!["menue-desc"@])),
{
    let cat = match find_first_cell(&row.cells, "menue-category") {
        Some(i) => match row.cells[i].first_text.as_ref() {
            Some(t) => trim_of(t.as_str()),
            None => String::new(),
        },
        None => String::new(),
    };
    let di = match find_first_cell(&row.cells, "menue-desc") {
        Some(i) => i,
        None => {
            return Err(missing_span_error("menue-desc"));
        },
    };
    let texts = &row.cells[di].texts;
    let mut lines: Vec<String> = Vec::new();
    let tn = texts.len();
    let mut k: usize = 0;
    while k < tn
        invariant
            0 <= k <= tn == texts@.len(),
            lines@.len() == k,
            forall|q: int| 0 <= q < k ==> lines@[q]@ == trim_spec(texts@[q]@),
        decreases tn - k,
    {
        lines.push(trim_of(texts[k].as_str()));
        k = k + 1;
    }
    let ghost tls = trim_all(seq_views(texts@));
    proof {
        assert(seq_views(lines@) =~= tls);
    }
    let desc: String;
    if lines.len() == 0 {
        desc = String::new();
        proof {
            assert(desc@ =~= extra_desc_spec(tls));
        }
    } else if lines.len() == 1 {
        desc = lines.remove(0);
        proof {
            assert(desc@ == seq_views(lines@.insert(0, desc))[0]);
        }
    } else {
        let last = match lines.pop() {
            Some(l) => l,
            None => {
                proof {
                    assert(false);
                }
                String::new()
            },
        };
        let mut d = join_with(&lines, ", ");
        d.append(" oder ");
        d.append(last.as_str());
        proof {
            assert(seq_views(lines@) =~= tls.take(tls.len() - 1));
            assert(last@ == tls[tls.len() - 1]);
        }
        desc = d;
    }
    Ok(MenuExtra { category: cat, extra: desc })
}

/// Parses every extras row in order; the first malformed row fails the
/// whole table.
pub fn parse_extras_table(rows: &Vec<ExtraRow>) -> (r: Result<Vec<MenuExtra>, FetcherError>)
    ensures
        r is Ok <==> !some_extra_row_bad(rows@),
        r matches Ok(es) ==> (es@.len() == rows@.len() && (forall|i: int|
            0 <= i < rows@.len() ==> (#[trigger] es@[i]).category@ == extra_row_cat(rows@[i])
                && es@[i].extra@ == extra_row_desc(rows@[i]))),
        r matches Err(e) ==> (en_err(e, "span"@, seq!["menue-desc"@]) && some_extra_row_bad(
            rows@,
        )),
{
    let mut es: Vec<MenuExtra> = Vec::new();
    let n = rows.len();
    let mut j: usize = 0;
    while j < n
        invariant
            0 <= j <= n == rows@.len(),
            es@.len() == j,
            forall|i: int| 0 <= i < j ==> extra_row_ok(rows@[i]),
            forall|i: int|
                0 <= i < j ==> (#[trigger] es@[i]).category@ == extra_row_cat(rows@[i])
                    && es@[i].extra@ == extra_row_desc(rows@[i]),
        decreases n - j,
    {
        match parse_extra_row(&rows[j]) {
            Ok(x) => {
                es.push(x);
            },
            Err(e) => {
                proof {
                    assert(!extra_row_ok(rows@[j as int]));
                    assert(some_extra_row_bad(rows@));
                }
                return Err(e);
            },
        }
        j = j + 1;
    }
    Ok(es)
}

/// The category key a dish row denotes, when it denotes one.
pub open spec fn dish_row_key(row: DishRow) -> Option<Seq<char>> {
    match row.category {
        Some(c) => first_token_spec(c@),
        None => None,
    }
}

/// The dishes of the rows keyed `key`, in row order, as a relation:
/// `ds` holds exactly one well-formed dish for each row whose key is
/// `key`.
pub open spec fn cat_dishes_rel(drows: Seq<DishRow>, key: Seq<char>, ds: Seq<Dish>) -> bool
    decreases drows.len(),
{
    if drows.len() == 0 {
        ds.len() == 0
    } else {
        if dish_row_key(drows[0]) == Some(key) {
            &&& ds.len() > 0
            &&& dish_row_dish_ok(drows[0], ds[0])
            &&& cat_dishes_rel(drows.skip(1), key, ds.skip(1))
        } else {
            cat_dishes_rel(drows.skip(1), key, ds)
        }
    }
}

/// The dishes of the pairs keyed `key`, in order.
pub open spec fn dishes_of(pairs: Seq<(String, Dish)>, key: Seq<char>) -> Seq<Dish>
    decreases pairs.len(),
{
    if pairs.len() == 0 {
        Seq::empty()
    } else {
        let rest = dishes_of(pairs.skip(1), key);
        if pairs[0].0@ == key {
            seq![pairs[0].1] + rest
        } else {
            rest
        }
    }
}

proof fn lemma_dishes_of_snoc(pairs: Seq<(String, Dish)>, j: int, key: Seq<char>)
    requires
        0 <= j < pairs.len(),
    ensures
        dishes_of(pairs.take(j + 1), key) =~= dishes_of(pairs.take(j), key) + (if pairs[j].0@
            == key {
            seq![pairs[j].1]
        } else {
            Seq::<Dish>::empty()
        }),
    decreases j,
{
    if j == 0 {
        let t1 = pairs.take(1);
        assert(pairs.take(0) =~= Seq::<(String, Dish)>::empty());
        assert(t1.len() == 1 && t1[0] == pairs[0]);
        assert(t1.skip(1) =~= Seq::<(String, Dish)>::empty());
    } else {
        let tj1 = pairs.take(j + 1);
        let tj = pairs.take(j);
        let rest = pairs.skip(1);
        assert(tj1[0] == pairs[0] && tj[0] == pairs[0]);
        assert(tj1.skip(1) =~= rest.take(j));
        assert(tj.skip(1) =~= rest.take(j - 1));
        assert(rest[j - 1] == pairs[j]);
        lemma_dishes_of_snoc(rest, j - 1, key);
    }
}

proof fn lemma_dishes_of_absent(pairs: Seq<(String, Dish)>, key: Seq<char>)
    requires
        forall|t: int| 0 <= t < pairs.len() ==> (#[trigger] pairs[t]).0@ != key,
    ensures
        dishes_of(pairs, key) == Seq::<Dish>::empty(),
    decreases pairs.len(),
{
    if pairs.len() > 0 {
        assert(forall|t: int|
            0 <= t < pairs.skip(1).len() ==> #[trigger] pairs.skip(1)[t] == pairs[t + 1]);
        lemma_dishes_of_absent(pairs.skip(1), key);
    }
}

proof fn lemma_cat_rel(drows: Seq<DishRow>, pairs: Seq<(String, Dish)>, key: Seq<char>)
    requires
        drows.len() == pairs.len(),
        forall|i: int|
            0 <= i < drows.len() ==> dish_row_pair_ok(
                #[trigger] drows[i],
                pairs[i].0,
                pairs[i].1,
            ),
    ensures
        cat_dishes_rel(drows, key, dishes_of(pairs, key)),
    decreases drows.len(),
{
    if drows.len() > 0 {
        assert(forall|i: int|
            0 <= i < drows.skip(1).len() ==> #[trigger] drows.skip(1)[i] == drows[i + 1]);
        assert(forall|i: int|
            0 <= i < pairs.skip(1).len() ==> #[trigger] pairs.skip(1)[i] == pairs[i + 1]);
        lemma_cat_rel(drows.skip(1), pairs.skip(1), key);
        assert(dish_row_pair_ok(drows[0], pairs[0].0, pairs[0].1));
        assert(dish_row_key(drows[0]) == Some(pairs[0].0@));
        if pairs[0].0@ == key {
            let ds = dishes_of(pairs, key);
            assert(ds == seq![pairs[0].1] + dishes_of(pairs.skip(1), key));
            assert(ds[0] == pairs[0].1);
            assert(ds.skip(1) =~= dishes_of(pairs.skip(1), key));
        }
    }
}

/// Whether some group carries the key.
pub open spec fn key_covered(groups: Seq<(String, Vec<Dish>)>, key: Seq<char>) -> bool {
    exists|i: int| 0 <= i < groups.len() && (#[trigger] groups[i]).0@ == key
}

/// Whether some pair carries the key.
pub open spec fn key_from_pairs(pairs: Seq<(String, Dish)>, key: Seq<char>) -> bool {
    exists|t: int| 0 <= t < pairs.len() && (#[trigger] pairs[t]).0@ == key
}

/// Groups row pairs by category key: each group holds exactly the
/// dishes of its key in row order, keys are unique, the key of every
/// pair has a group, and every group's key comes from some pair.
pub fn group_rows(pairs: Vec<(String, Dish)>) -> (r: Vec<(String, Vec<Dish>)>)
    ensures
        forall|a: int, b: int| 0 <= a < b < r@.len() ==> r@[a].0@ != r@[b].0@,
        forall|i: int| 0 <= i < r@.len() ==> (#[trigger] r@[i]).1@ == dishes_of(pairs@, r@[i].0@),
        forall|t: int| 0 <= t < pairs@.len() ==> key_covered(r@, (#[trigger] pairs@[t]).0@),
        forall|i: int| 0 <= i < r@.len() ==> key_from_pairs(pairs@, (#[trigger] r@[i]).0@),
{
    let ghost all = pairs@;
    let mut rest = pairs;
    let mut out: Vec<(String, Vec<Dish>)> = Vec::new();
    let ghost mut j: int = 0;
    let ghost mut wit: Seq<int> = Seq::empty();
    let ghost mut src: Seq<int> = Seq::empty();
    while rest.len() > 0
        invariant
            0 <= j <= all.len(),
            rest@ =~= all.skip(j),
            wit.len() == j,
            src.len() == out@.len(),
            forall|a: int, b: int| 0 <= a < b < out@.len() ==> out@[a].0@ != out@[b].0@,
            forall|i: int|
                0 <= i < out@.len() ==> (#[trigger] out@[i]).1@ == dishes_of(
                    all.take(j),
                    out@[i].0@,
                ),
            forall|q: int|
                0 <= q < j ==> 0 <= #[trigger] wit[q] < out@.len() && out@[wit[q]].0@
                    == all[q].0@,
            forall|u: int|
                0 <= u < out@.len() ==> 0 <= #[trigger] src[u] < j && out@[u].0@
                    == all[src[u]].0@,
        decreases rest.len(),
    {
        proof {
            assert(rest@[0] == all[j]);
        }
        let (cat, dish) = rest.remove(0);
        let ghost gcat = cat;
        let ghost gdish = dish;
        proof {
            assert(gcat == all[j].0 && gdish == all[j].1);
        }
        let ghost old_out = out@;
        let n = out.len();
        let mut i: usize = 0;
        while i < n && !str_eq(out[i].0.as_str(), cat.as_str())
            invariant
                0 <= i <= n == out@.len(),
                forall|q: int| 0 <= q < i ==> (#[trigger] out@[q]).0@ != cat@,
            decreases n - i,
        {
            i = i + 1;
        }
        if i < n {
            let mut entry = out.remove(i);
            proof {
                assert(entry == old_out[i as int]);
                assert(entry.0@ == gcat@);
            }
            entry.1.push(dish);
            out.insert(i, entry);
            proof {
                assert(out@ =~= old_out.update(i as int, entry));
                assert(forall|q: int|
                    0 <= q < out@.len() ==> (#[trigger] out@[q]).0@ == old_out[q].0@);
                assert forall|q: int| 0 <= q < out@.len() implies (#[trigger] out@[q]).1@
                    == dishes_of(all.take(j + 1), out@[q].0@) by {
                    lemma_dishes_of_snoc(all, j, out@[q].0@);
                    if q != i {
                        assert(out@[q] == old_out[q]);
                        assert(out@[q].0@ != gcat@) by {
                            if q >= i {
                                assert(old_out[q].0@ != old_out[i as int].0@);
                            }
                        }
                    } else {
                        assert(out@[q].1@ =~= old_out[i as int].1@ + seq![gdish]);
                    }
                }
                wit = wit.push(i as int);
                j = j + 1;
                assert(rest@ =~= all.skip(j));
            }
        } else {
            let mut ds: Vec<Dish> = Vec::new();
            ds.push(dish);
            out.push((cat, ds));
            proof {
                assert(out@[out@.len() - 1].0@ == gcat@);
                assert(out@[out@.len() - 1].1@ =~= seq![gdish]);
                assert forall|t: int| 0 <= t < j implies (#[trigger] all[t]).0@ != gcat@ by {
                    assert(out@[wit[t]].0@ == all[t].0@);
                    assert(wit[t] < out@.len() - 1);
                }
                assert forall|q: int| 0 <= q < out@.len() implies (#[trigger] out@[q]).1@
                    == dishes_of(all.take(j + 1), out@[q].0@) by {
                    lemma_dishes_of_snoc(all, j, out@[q].0@);
                    if q < out@.len() - 1 {
                        assert(out@[q] == old_out[q]);
                        assert(out@[q].0@ != gcat@);
                    } else {
                        assert(forall|t: int|
                            0 <= t < all.take(j).len() ==> (#[trigger] all.take(j)[t]).0@
                                != gcat@);
                        lemma_dishes_of_absent(all.take(j), gcat@);
                        assert(out@[q].1@ =~= dishes_of(all.take(j), gcat@) + seq![gdish]);
                    }
                }
                wit = wit.push(out@.len() - 1);
                src = src.push(j);
                j = j + 1;
                assert(rest@ =~= all.skip(j));
            }
        }
    }
    proof {
        assert(j == all.len());
        assert(all.take(j) =~= all);
        assert forall|q: int| 0 <= q < all.len() implies key_covered(
            out@,
            (#[trigger] all[q]).0@,
        ) by {
            assert(0 <= wit[q] < out@.len() && out@[wit[q]].0@ == all[q].0@);
        }
        assert forall|i2: int| 0 <= i2 < out@.len() implies key_from_pairs(
            all,
            (#[trigger] out@[i2]).0@,
        ) by {
            assert(0 <= src[i2] < all.len() && out@[i2].0@ == all[src[i2]].0@);
        }
    }
    out
}

/// Whether some dish row is malformed.
pub open spec fn some_dish_row_bad(drows: Seq<DishRow>) -> bool {
    exists|i: int| 0 <= i < drows.len() && !dish_row_ok(#[trigger] drows[i])
}

/// The error of the first malformed dish row.
pub open spec fn first_dish_fail(drows: Seq<DishRow>, e: FetcherError) -> bool {
    exists|i: int|
        0 <= i < drows.len() && !dish_row_ok(#[trigger] drows[i]) && dish_row_fail(drows[i], e)
            && (forall|k: int| 0 <= k < i ==> dish_row_ok(drows[k]))
}

/// Whether some extras row is malformed.
pub open spec fn some_extra_row_bad(erows: Seq<ExtraRow>) -> bool {
    exists|i: int| 0 <= i < erows.len() && !extra_row_ok(#[trigger] erows[i])
}

/// Whether some dish row denotes the key.
pub open spec fn row_key_covered(drows: Seq<DishRow>, key: Seq<char>) -> bool {
    exists|t: int| 0 <= t < drows.len() && dish_row_key(#[trigger] drows[t]) == Some(key)
}

/// How an extracted menu relates to the rows it was read from: the
/// categories are sorted; each category holds exactly the dishes of
/// its key in row order; the keys are exactly the keys the rows
/// denote; the extras correspond to the extras rows pointwise.
pub open spec fn menu_matches_rows(m: Menu, drows: Seq<DishRow>, erows: Seq<ExtraRow>) -> bool {
    &&& sorted_cats(m.cats())
    &&& unique_cat_keys(m.cats())
    &&& forall|i: int|
        0 <= i < m.cats().len() ==> cat_dishes_rel(
            drows,
            (#[trigger] m.cats()[i]).0@,
            m.cats()[i].1@,
        )
    &&& forall|t: int|
        0 <= t < drows.len() ==> match dish_row_key(#[trigger] drows[t]) {
            Some(k) => key_covered(m.cats(), k),
            None => false,
        }
    &&& forall|i: int| 0 <= i < m.cats().len() ==> row_key_covered(drows, (#[trigger] m.cats()[i]).0@)
    &&& m.extras_view().len() == erows.len()
    &&& forall|i: int|
        0 <= i < erows.len() ==> (#[trigger] m.extras_view()[i]).category@ == extra_row_cat(
            erows[i],
        ) && m.extras_view()[i].extra@ == extra_row_desc(erows[i])
}

/// Everything extraction promises, by case: no usable day-section
/// means the canteen is closed that day; a missing dish or extras
/// table is a structural fault naming the table; a malformed row fails
/// with the first row's error; otherwise the menu matches the rows.
pub open spec fn extract_post(
    page: PageModel,
    site: Canteen,
    date: Date,
    r: Result<Menu, FetcherError>,
) -> bool {
    let si = first_usable_from(page.sections@, date, 0);
    if si == -1 {
        r == Err::<Menu, FetcherError>(FetcherError::CanteenClosed { canteen: site, date })
    } else {
        let block = page.sections@[si].blocks@[0];
        let mi = last_marked(block.tables@, "menues"@);
        let ei = last_marked(block.tables@, "extras"@);
        if mi == -1 {
            r matches Err(e) && en_err(e, "table"@, seq!["menues"@])
        } else if ei == -1 {
            r matches Err(e) && en_err(e, "table"@, seq!["extras"@])
        } else {
            let drows = block.tables@[mi].dish_rows@;
            let erows = block.tables@[ei].extra_rows@;
            if some_dish_row_bad(drows) {
                r matches Err(e) && first_dish_fail(drows, e)
            } else if some_extra_row_bad(erows) {
                r matches Err(e) && en_err(e, "span"@, seq!["menue-desc"@])
            } else {
                r matches Ok(m) && menu_matches_rows(m, drows, erows)
            }
        }
    }
}

fn section_matches(s: &SectionNode, date: Date) -> (r: bool)
    ensures
        r == section_matches_spec(*s, date),
{
    match s.title.as_ref() {
        Some(t) => match scan_date(t.as_str()) {
            Some(d) => d == date,
            None => false,
        },
        None => false,
    }
}

fn missing_table_error(marker: &str) -> (e: FetcherError)
    ensures
        en_err(e, "table"@, seq![marker@]),
{
    let mut cls: Vec<String> = Vec::new();
    cls.push(marker.to_owned());
    proof {
        assert(seq_views(cls@) =~= seq![marker@]);
    }
    FetcherError::ElementNotFound { tag: String::from_str("table"), cls }
}

/// Extracts the menu for `date` from the page: selects the matching
/// day-section, validates its structure, and parses the dish and
/// extras tables, all-or-nothing.
pub fn extract_from_page(page: &PageModel, site: Canteen, date: Date) -> (r: Result<
    Menu,
    FetcherError,
>)
    ensures
        extract_post(*page, site, date, r),
{
    let n = page.sections.len();
    let mut si: usize = 0;
    while si < n && !(section_matches(&page.sections[si], date) && page.sections[si].blocks.len()
        > 0)
        invariant
            0 <= si <= n == page.sections@.len(),
            forall|k: int|
                0 <= k < si ==> !(section_matches_spec(#[trigger] page.sections@[k], date)
                    && page.sections@[k].blocks@.len() > 0),
        decreases n - si,
    {
        si = si + 1;
    }
    proof {
        lemma_first_usable_step(page.sections@, date, 0, si as int);
    }
    if si == n {
        return Err(FetcherError::CanteenClosed { canteen: site, date });
    }
    let block = &page.sections[si].blocks[0];
    let mi = match find_last_marked(&block.tables, "menues") {
        Some(i) => i,
        None => {
            return Err(missing_table_error("menues"));
        },
    };
    let ei = match find_last_marked(&block.tables, "extras") {
        Some(i) => i,
        None => {
            return Err(missing_table_error("extras"));
        },
    };
    let pairs = match parse_menu_table(&block.tables[mi].dish_rows) {
        Ok(p) => p,
        Err(e) => {
            return Err(e);
        },
    };
    let extras = match parse_extras_table(&block.tables[ei].extra_rows) {
        Ok(x) => x,
        Err(e) => {
            return Err(e);
        },
    };
    let ghost gpairs = pairs@;
    let groups = group_rows(pairs);
    let menu = Menu::new(groups, extras);
    proof {
        broadcast use vstd::seq_lib::group_to_multiset_ensures;

        let drows = block.tables@[mi as int].dish_rows@;
        let pairs = gpairs;
        let gs = groups@;
        let cs = menu.cats();
        assert(unique_cat_keys(gs));
        assert(unique_cat_keys(cs));
        assert(cs.to_multiset() == gs.to_multiset());
        assert forall|i: int| 0 <= i < cs.len() implies gs.contains(#[trigger] cs[i]) by {
            assert(cs[i] == cs[i]);
            assert(cs.contains(cs[i]));
            assert(cs.to_multiset().count(cs[i]) > 0);
        }
        assert forall|q: int| 0 <= q < gs.len() implies cs.contains(#[trigger] gs[q]) by {
            assert(gs.contains(gs[q]));
            assert(gs.to_multiset().count(gs[q]) > 0);
        }
        assert forall|i: int| 0 <= i < cs.len() implies cat_dishes_rel(
            drows,
            (#[trigger] cs[i]).0@,
            cs[i].1@,
        ) by {
            let q = choose|q: int| 0 <= q < gs.len() && gs[q] == cs[i];
            assert(gs[q].1@ == dishes_of(pairs, gs[q].0@));
            lemma_cat_rel(drows, pairs, cs[i].0@);
        }
        assert forall|t: int| 0 <= t < drows.len() implies match dish_row_key(
            #[trigger] drows[t],
        ) {
            Some(k) => key_covered(cs, k),
            None => false,
        } by {
            assert(dish_row_pair_ok(drows[t], pairs[t].0, pairs[t].1));
            assert(dish_row_key(drows[t]) == Some(pairs[t].0@));
            assert(key_covered(gs, pairs[t].0@));
            let q = choose|q: int| 0 <= q < gs.len() && (#[trigger] gs[q]).0@ == pairs[t].0@;
            let i = choose|i: int| 0 <= i < cs.len() && cs[i] == gs[q];
            assert(cs[i].0@ == pairs[t].0@);
            assert(key_covered(cs, pairs[t].0@));
        }
        assert forall|i: int| 0 <= i < cs.len() implies row_key_covered(
            drows,
            (#[trigger] cs[i]).0@,
        ) by {
            let q = choose|q: int| 0 <= q < gs.len() && gs[q] == cs[i];
            assert(key_from_pairs(pairs, gs[q].0@));
            let t = choose|t: int| 0 <= t < pairs.len() && (#[trigger] pairs[t]).0@ == gs[q].0@;
            assert(dish_row_pair_ok(drows[t], pairs[t].0, pairs[t].1));
            assert(dish_row_key(drows[t]) == Some(cs[i].0@));
            assert(row_key_covered(drows, cs[i].0@));
        }
        assert(menu_matches_rows(menu, drows, block.tables@[ei as int].extra_rows@));
    }
    Ok(menu)
}


/// Extraction fails only as the closed-canteen condition or as a
/// missing-element fault, never as a transport failure.
pub proof fn lemma_extract_err_shape(
    page: PageModel,
    site: Canteen,
    date: Date,
    r: Result<Menu, FetcherError>,
)
    requires
        extract_post(page, site, date, r),
    ensures
        r matches Err(e) ==> !(e is Transport),
{
    let si = first_usable_from(page.sections@, date, 0);
    if si == -1 {
    } else {
        let block = page.sections@[si].blocks@[0];
        let mi = last_marked(block.tables@, "menues"@);
        let ei = last_marked(block.tables@, "extras"@);
        if mi == -1 {
        } else if ei == -1 {
        } else {
            let drows = block.tables@[mi].dish_rows@;
            let erows = block.tables@[ei].extra_rows@;
            if some_dish_row_bad(drows) {
                match r {
                    Result::Err(e) => {
                        let i = choose|i: int|
                            0 <= i < drows.len() && !dish_row_ok(#[trigger] drows[i])
                                && dish_row_fail(drows[i], e) && (forall|k: int|
                                0 <= k < i ==> dish_row_ok(drows[k]));
                        assert(dish_row_fail(drows[i], e));
                        assert(!(e is Transport));
                    },
                    Result::Ok(_) => {},
                }
            }
        }
    }
}


/// A page whose day-sections carry no date matching the target yields
/// the closed-canteen condition, never a structural fault.
pub proof fn lemma_closed_when_no_date(
    page: PageModel,
    site: Canteen,
    date: Date,
    r: Result<Menu, FetcherError>,
)
    requires
        extract_post(page, site, date, r),
        forall|k: int|
            0 <= k < page.sections@.len() ==> !section_matches_spec(
                #[trigger] page.sections@[k],
                date,
            ),
    ensures
        r == Err::<Menu, FetcherError>(FetcherError::CanteenClosed { canteen: site, date }),
{
    lemma_no_matching_date(page.sections@, date, 0);
}

} // verus!
