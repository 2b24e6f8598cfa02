//! The menu model: dishes grouped by category plus supplementary
//! extras, and its deterministic rendering. A menu is immutable once
//! constructed; categories are kept sorted by name so that rendering is
//! independent of the order in which the source listed them.

use vstd::prelude::*;
use vstd::string::*;
use crate::text::{
    join_sep, join_with, lex_le, lemma_lex_le_total, lemma_lex_le_trans, seq_views, str_eq,
    str_lex_le,
};

verus! {

/// A dietary marker attached to a dish row; only these six are
/// recognized.
#[derive(Clone, Copy, PartialEq, Eq, Structural, Debug)]
pub enum Label {
    Beef,
    Chicken,
    Fish,
    Pork,
    Vegan,
    Veggie,
}

impl Label {
    /// The decorative marker this label renders as.
    pub open spec fn marker_spec(self) -> Seq<char> {
        match self {
            Label::Beef => "\u{1F42E}"@,
            Label::Chicken => "\u{1F414}"@,
            Label::Fish => "\u{1F41F}"@,
            Label::Pork => "\u{1F437}"@,
            Label::Vegan => "\u{1F951}"@,
            Label::Veggie => "\u{1F331}"@,
        }
    }

    pub fn marker(self) -> (r: String)
        ensures
            r@ == self.marker_spec(),
    {
        match self {
            Label::Beef => String::from_str("\u{1F42E}"),
            Label::Chicken => String::from_str("\u{1F414}"),
            Label::Fish => String::from_str("\u{1F41F}"),
            Label::Pork => String::from_str("\u{1F437}"),
            Label::Vegan => String::from_str("\u{1F951}"),
            Label::Veggie => String::from_str("\u{1F331}"),
        }
    }

    /// The label that a recognized class marker on a dish row denotes;
    /// any other marker denotes none.
    pub open spec fn of_class_spec(c: Seq<char>) -> Option<Label> {
        if c == "Fisch"@ {
            Some(Label::Fish)
        } else if c == "OLV"@ {
            Some(Label::Veggie)
        } else if c == "vegan"@ {
            Some(Label::Vegan)
        } else if c == "Geflügel"@ {
            Some(Label::Chicken)
        } else if c == "Schwein"@ {
            Some(Label::Pork)
        } else if c == "Rind"@ {
            Some(Label::Beef)
        } else {
            None
        }
    }

    pub fn of_class(c: &str) -> (r: Option<Label>)
        ensures
            r == Label::of_class_spec(c@),
    {
        if str_eq(c, "Fisch") {
            Some(Label::Fish)
        } else if str_eq(c, "OLV") {
            Some(Label::Veggie)
        } else if str_eq(c, "vegan") {
            Some(Label::Vegan)
        } else if str_eq(c, "Geflügel") {
            Some(Label::Chicken)
        } else if str_eq(c, "Schwein") {
            Some(Label::Pork)
        } else if str_eq(c, "Rind") {
            Some(Label::Beef)
        } else {
            None
        }
    }
}

/// The well-known category names; free-form names outside this set are
/// carried through as plain text.
#[derive(Clone, Copy, PartialEq, Eq, Structural, Debug)]
pub enum Category {
    BurgerClassic,
    BurgerWeekly,
    Classic,
    Pasta,
    PizzaClassic,
    PizzaDaily,
    PlateDish,
    Veggie,
    Wok,
}

impl Category {
    pub open spec fn name_spec(self) -> Seq<char> {
        match self {
            Category::BurgerClassic => "Burger Classics"@,
            Category::BurgerWeekly => "Burger der Woche"@,
            Category::Classic => "Klassiker"@,
            Category::Pasta => "Pasta"@,
            Category::PizzaClassic => "Pizza Classics"@,
            Category::PizzaDaily => "Pizza des Tages"@,
            Category::PlateDish => "Tellergericht"@,
            Category::Veggie => "Vegetarisch"@,
            Category::Wok => "Wok"@,
        }
    }

    pub fn name(self) -> (r: String)
        ensures
            r@ == self.name_spec(),
    {
        match self {
            Category::BurgerClassic => String::from_str("Burger Classics"),
            Category::BurgerWeekly => String::from_str("Burger der Woche"),
            Category::Classic => String::from_str("Klassiker"),
            Category::Pasta => String::from_str("Pasta"),
            Category::PizzaClassic => String::from_str("Pizza Classics"),
            Category::PizzaDaily => String::from_str("Pizza des Tages"),
            Category::PlateDish => String::from_str("Tellergericht"),
            Category::Veggie => String::from_str("Vegetarisch"),
            Category::Wok => String::from_str("Wok"),
        }
    }
}

/// The decorative marker appended after one of the six known category
/// names; unknown names carry no marker.
pub open spec fn cat_marker_spec(name: Seq<char>) -> Seq<char> {
    if name == "Klassiker"@ {
        "\u{1F374}"@
    } else if name == "Vegetarisch"@ {
        "\u{1F966}"@
    } else if name == "Tellergericht"@ {
        "\u{1F372}"@
    } else if name == "Burger"@ {
        "\u{1F354}"@
    } else if name == "Wok"@ {
        "\u{1F961}"@
    } else if name == "Pizza"@ {
        "\u{1F355}"@
    } else {
        Seq::empty()
    }
}

pub fn category_marker(name: &str) -> (r: String)
    ensures
        r@ == cat_marker_spec(name@),
{
    if str_eq(name, "Klassiker") {
        String::from_str("\u{1F374}")
    } else if str_eq(name, "Vegetarisch") {
        String::from_str("\u{1F966}")
    } else if str_eq(name, "Tellergericht") {
        String::from_str("\u{1F372}")
    } else if str_eq(name, "Burger") {
        String::from_str("\u{1F354}")
    } else if str_eq(name, "Wok") {
        String::from_str("\u{1F961}")
    } else if str_eq(name, "Pizza") {
        String::from_str("\u{1F355}")
    } else {
        let r = String::new();
        proof {
            assert(r@ =~= cat_marker_spec(name@));
        }
        r
    }
}

/// One dish: its name, the ordered ingredient fragments, the labels in
/// the order found on the row, and an optional free-form price.
#[derive(Clone, PartialEq, Eq, Debug)]
pub struct Dish {
    pub name: String,
    pub ingreds: Vec<String>,
    pub labels: Vec<Label>,
    pub price: Option<String>,
}

/// The markers of a label list, in recorded order.
pub open spec fn label_markers(ls: Seq<Label>) -> Seq<Seq<char>> {
    Seq::new(ls.len(), |i: int| ls[i].marker_spec())
}

/// One rendered dish line: the name in strong markup, a separator and
/// the comma-joined ingredients when there are any, the space-joined
/// label markers when there are any, and the price when present. An
/// absent price renders nothing: the price segment is simply omitted.
pub open spec fn dish_html_spec(d: Dish) -> Seq<char> {
    "<strong>"@ + d.name@ + "</strong>"@ + (if d.ingreds@.len() > 0 {
        " | "@
    } else {
        Seq::empty()
    }) + join_sep(seq_views(d.ingreds@), ", "@) + (if d.labels@.len() > 0 {
        " "@ + join_sep(label_markers(d.labels@), " "@)
    } else {
        Seq::empty()
    }) + (match d.price {
        Some(p) => " – <strong>"@ + p@ + "</strong>"@,
        None => Seq::empty(),
    })
}

impl Dish {
    pub fn new(name: String, descs: Vec<String>, labels: Vec<Label>, price: Option<String>) -> (r:
        Dish)
        ensures
            r == (Dish { name, ingreds: descs, labels, price }),
    {
        Dish { name, ingreds: descs, labels, price }
    }

    /// Renders this dish as one line of markup.
    pub fn fmt_html(&self) -> (r: String)
        ensures
            r@ == dish_html_spec(*self),
    {
        let mut h = String::from_str("<strong>");
        h.append(self.name.as_str());
        h.append("</strong>");
        if self.ingreds.len() > 0 {
            h.append(" | ");
        }
        let ij = join_with(&self.ingreds, ", ");
        h.append(ij.as_str());
        if self.labels.len() > 0 {
            h.append(" ");
            let mut ms: Vec<String> = Vec::new();
            let mut i: usize = 0;
            while i < self.labels.len()
                invariant
                    0 <= i <= self.labels@.len(),
                    ms@.len() == i,
                    forall|k: int| 0 <= k < i ==> ms@[k]@ == self.labels@[k].marker_spec(),
                decreases self.labels@.len() - i,
            {
                let m = self.labels[i].marker();
                ms.push(m);
                i = i + 1;
            }
            proof {
                assert(seq_views(ms@) =~= label_markers(self.labels@));
            }
            let mj = join_with(&ms, " ");
            h.append(mj.as_str());
        }
        if self.price.is_some() {
            let p = self.price.as_ref().unwrap();
            h.append(" – <strong>");
            h.append(p.as_str());
            h.append("</strong>");
        }
        proof {
            assert(h@ =~= dish_html_spec(*self));
        }
        h
    }
}

/// A supplementary offering listed apart from the categorized dishes.
#[derive(Clone, PartialEq, Eq, Debug)]
pub struct MenuExtra {
    pub category: String,
    pub extra: String,
}

/// One rendered extras line: the category in emphasis markup, then the
/// description.
pub open spec fn extra_html_spec(e: MenuExtra) -> Seq<char> {
    "<em>"@ + e.category@ + "</em>: "@ + e.extra@
}

impl MenuExtra {
    pub fn new(category: String, extra: String) -> (r: MenuExtra)
        ensures
            r == (MenuExtra { category, extra }),
    {
        MenuExtra { category, extra }
    }

    pub fn fmt_html(&self) -> (r: String)
        ensures
            r@ == extra_html_spec(*self),
    {
        let mut h = String::from_str("<em>");
        h.append(self.category.as_str());
        h.append("</em>: ");
        h.append(self.extra.as_str());
        h
    }
}

/// Categories in non-decreasing lexicographic order of their names.
pub open spec fn sorted_cats(s: Seq<(String, Vec<Dish>)>) -> bool {
    forall|i: int, j: int| 0 <= i < j < s.len() ==> lex_le(s[i].0@, s[j].0@)
}

/// No category name appears twice.
pub open spec fn unique_cat_keys(s: Seq<(String, Vec<Dish>)>) -> bool {
    forall|a: int, b: int| 0 <= a < b < s.len() ==> (#[trigger] s[a]).0@ != (#[trigger] s[b]).0@
}

/// One rendered category block: the name in emphasis markup, its
/// marker when the name is a known one, then one line per dish.
pub open spec fn cat_block_spec(name: Seq<char>, ds: Seq<Dish>) -> Seq<char> {
    "<em>"@ + name + "</em>"@ + (if cat_marker_spec(name).len() > 0 {
        " "@ + cat_marker_spec(name)
    } else {
        Seq::empty()
    }) + "\n"@ + dish_lines_spec(ds)
}

pub open spec fn dish_lines_spec(ds: Seq<Dish>) -> Seq<char>
    decreases ds.len(),
{
    if ds.len() == 0 {
        Seq::empty()
    } else {
        dish_html_spec(ds[0]) + "\n"@ + dish_lines_spec(ds.skip(1))
    }
}

/// The blocks of the categories that have at least one dish, in stored
/// order; a category with zero dishes contributes nothing.
pub open spec fn cat_blocks_spec(s: Seq<(String, Vec<Dish>)>) -> Seq<Seq<char>>
    decreases s.len(),
{
    if s.len() == 0 {
        Seq::empty()
    } else {
        let rest = cat_blocks_spec(s.skip(1));
        if s[0].1@.len() == 0 {
            rest
        } else {
            seq![cat_block_spec(s[0].0@, s[0].1@)] + rest
        }
    }
}

pub open spec fn extras_tail_spec(es: Seq<MenuExtra>) -> Seq<char>
    decreases es.len(),
{
    if es.len() == 0 {
        Seq::empty()
    } else {
        "\n"@ + extra_html_spec(es[0]) + extras_tail_spec(es.skip(1))
    }
}

/// The whole rendering: category blocks joined by a blank line, then
/// one line per extra.
pub open spec fn menu_html_spec(cats: Seq<(String, Vec<Dish>)>, extras: Seq<MenuExtra>) -> Seq<
    char,
> {
    join_sep(cat_blocks_spec(cats), "\n"@) + extras_tail_spec(extras)
}

/// A full daily menu: dishes grouped by category name plus the ordered
/// extras. Immutable once constructed.
#[derive(Clone, Debug)]
pub struct Menu {
    dishes: Vec<(String, Vec<Dish>)>,
    extras: Vec<MenuExtra>,
}

impl Menu {
    /// The stored categories, sorted by name.
    pub closed spec fn cats(self) -> Seq<(String, Vec<Dish>)> {
        self.dishes@
    }

    /// The stored extras, in source order.
    pub closed spec fn extras_view(self) -> Seq<MenuExtra> {
        self.extras@
    }

    /// Builds a menu from category groups in any order; the groups are
    /// stored sorted by category name, so the parse order does not
    /// matter to rendering.
    pub fn new(dishes: Vec<(String, Vec<Dish>)>, extras: Vec<MenuExtra>) -> (r: Menu)
        ensures
            sorted_cats(r.cats()),
            r.cats().to_multiset() == dishes@.to_multiset(),
            unique_cat_keys(dishes@) ==> unique_cat_keys(r.cats()),
            r.extras_view() == extras@,
    {
        Menu { dishes: sort_cats(dishes), extras }
    }

    /// Renders the menu: categories in lexicographic name order with a
    /// blank line between blocks, empty categories omitted, then the
    /// extras.
    pub fn fmt_html(&self) -> (r: String)
        ensures
            r@ == menu_html_spec(self.cats(), self.extras_view()),
    {
        let blocks = cat_blocks_from(&self.dishes, 0);
        proof {
            assert(self.dishes@.skip(0) =~= self.dishes@);
        }
        let mut h = join_with(&blocks, "\n");
        let t = extras_tail_from(&self.extras, 0);
        proof {
            assert(self.extras@.skip(0) =~= self.extras@);
        }
        h.append(t.as_str());
        h
    }
}

fn dish_lines_from(ds: &Vec<Dish>, k: usize) -> (r: String)
    requires
        k <= ds@.len(),
    ensures
        r@ == dish_lines_spec(ds@.skip(k as int)),
    decreases ds@.len() - k,
{
    if k == ds.len() {
        let r = String::new();
        proof {
            assert(ds@.skip(k as int).len() == 0);
        }
        r
    } else {
        let mut h = ds[k].fmt_html();
        h.append("\n");
        let t = dish_lines_from(ds, k + 1);
        h.append(t.as_str());
        proof {
            assert(ds@.skip(k as int)[0] == ds@[k as int]);
            assert(ds@.skip(k as int).skip(1) =~= ds@.skip(k + 1));
        }
        h
    }
}

fn cat_blocks_from(cs: &Vec<(String, Vec<Dish>)>, k: usize) -> (r: Vec<String>)
    requires
        k <= cs@.len(),
    ensures
        seq_views(r@) == cat_blocks_spec(cs@.skip(k as int)),
    decreases cs@.len() - k,
{
    if k == cs.len() {
        let r: Vec<String> = Vec::new();
        proof {
            assert(cs@.skip(k as int).len() == 0);
            assert(seq_views(r@) =~= cat_blocks_spec(cs@.skip(k as int)));
        }
        r
    } else {
        let rest = cat_blocks_from(cs, k + 1);
        proof {
            assert(cs@.skip(k as int)[0] == cs@[k as int]);
            assert(cs@.skip(k as int).skip(1) =~= cs@.skip(k + 1));
        }
        if cs[k].1.len() == 0 {
            rest
        } else {
            let mut h = String::from_str("<em>");
            h.append(cs[k].0.as_str());
            h.append("</em>");
            let m = category_marker(cs[k].0.as_str());
            if m.as_str().unicode_len() > 0 {
                h.append(" ");
                h.append(m.as_str());
            }
            h.append("\n");
            let dl = dish_lines_from(&cs[k].1, 0);
            proof {
                assert(cs@[k as int].1@.skip(0) =~= cs@[k as int].1@);
            }
            h.append(dl.as_str());
            proof {
                assert(h@ =~= cat_block_spec(cs@[k as int].0@, cs@[k as int].1@));
            }
            let mut out: Vec<String> = Vec::new();
            out.push(h);
            let ghost oh = out@;
            let mut j: usize = 0;
            let rn = rest.len();
            while j < rn
                invariant
                    0 <= j <= rn == rest@.len(),
                    out@ == oh + rest@.take(j as int),
                    oh.len() == 1,
                decreases rn - j,
            {
                let item = rest[j].clone();
                assert(item@ == rest@[j as int]@);
                out.push(item);
                assert(out@ =~= oh + rest@.take(j + 1));
                j = j + 1;
            }
            proof {
                assert(out@ =~= oh + rest@);
                assert(seq_views(out@) =~= cat_blocks_spec(cs@.skip(k as int)));
            }
            out
        }
    }
}

fn extras_tail_from(es: &Vec<MenuExtra>, k: usize) -> (r: String)
    requires
        k <= es@.len(),
    ensures
        r@ == extras_tail_spec(es@.skip(k as int)),
    decreases es@.len() - k,
{
    if k == es.len() {
        let r = String::new();
        proof {
            assert(es@.skip(k as int).len() == 0);
        }
        r
    } else {
        let mut h = String::from_str("\n");
        let e = es[k].fmt_html();
        h.append(e.as_str());
        let t = extras_tail_from(es, k + 1);
        h.append(t.as_str());
        proof {
            assert(es@.skip(k as int)[0] == es@[k as int]);
            assert(es@.skip(k as int).skip(1) =~= es@.skip(k + 1));
        }
        h
    }
}

/// Selection sort of category groups by name; the result is sorted and
/// holds exactly the input groups.
fn sort_cats(v: Vec<(String, Vec<Dish>)>) -> (r: Vec<(String, Vec<Dish>)>)
    ensures
        sorted_cats(r@),
        r@.to_multiset() == v@.to_multiset(),
        unique_cat_keys(v@) ==> unique_cat_keys(r@),
{
    broadcast use vstd::seq_lib::group_to_multiset_ensures;

    let mut rem = v;
    let mut out: Vec<(String, Vec<Dish>)> = Vec::new();
    proof {
        assert(out@.to_multiset().add(rem@.to_multiset()) =~= v@.to_multiset());
    }
    while rem.len() > 0
        invariant
            sorted_cats(out@),
            out@.to_multiset().add(rem@.to_multiset()) == v@.to_multiset(),
            forall|i: int, j: int|
                0 <= i < out@.len() && 0 <= j < rem@.len() ==> lex_le(out@[i].0@, rem@[j].0@),
            unique_cat_keys(v@) ==> unique_cat_keys(out@),
            unique_cat_keys(v@) ==> unique_cat_keys(rem@),
            unique_cat_keys(v@) ==> (forall|i: int, j: int|
                0 <= i < out@.len() && 0 <= j < rem@.len() ==> (#[trigger] out@[i]).0@ != (
                #[trigger] rem@[j]).0@),
        decreases rem.len(),
    {
        broadcast use vstd::seq_lib::group_to_multiset_ensures;

        proof {
            lemma_lex_le_total(rem@[0].0@, rem@[0].0@);
        }
        let mut best: usize = 0;
        let mut k: usize = 1;
        while k < rem.len()
            invariant
                0 <= best < rem@.len(),
                1 <= k <= rem@.len(),
                forall|t: int| 0 <= t < k ==> lex_le(rem@[best as int].0@, rem@[t].0@),
            decreases rem@.len() - k,
        {
            if !str_lex_le(rem[best].0.as_str(), rem[k].0.as_str()) {
                proof {
                    lemma_lex_le_total(rem@[best as int].0@, rem@[k as int].0@);
                    assert forall|t: int| 0 <= t < k + 1 implies lex_le(
                        rem@[k as int].0@,
                        rem@[t].0@,
                    ) by {
                        if t < k {
                            lemma_lex_le_trans(rem@[k as int].0@, rem@[best as int].0@, rem@[t].0@);
                        } else {
                            lemma_lex_le_total(rem@[k as int].0@, rem@[k as int].0@);
                        }
                    }
                }
                best = k;
            }
            k = k + 1;
        }
        let ghost old_out = out@;
        let ghost old_rem = rem@;
        let item = rem.remove(best);
        out.push(item);
        proof {
            assert(old_rem.contains(old_rem[best as int]));
            assert(out@.to_multiset() =~= old_out.to_multiset().insert(item));
            assert(rem@.to_multiset() =~= old_rem.to_multiset().remove(item));
            assert(out@.to_multiset().add(rem@.to_multiset()) =~= v@.to_multiset());
            assert forall|i: int, j: int|
                0 <= i < j < out@.len() implies lex_le(out@[i].0@, out@[j].0@) by {
                if j < out@.len() - 1 {
                    assert(out@[i] == old_out[i] && out@[j] == old_out[j]);
                }
            }
            assert forall|i: int, j: int|
                0 <= i < out@.len() && 0 <= j < rem@.len() implies lex_le(
                out@[i].0@,
                rem@[j].0@,
            ) by {
                let jj = if j < best { j } else { j + 1 };
                assert(rem@[j] == old_rem[jj]);
                if i < out@.len() - 1 {
                    assert(out@[i] == old_out[i]);
                } else {
                    assert(out@[i] == old_rem[best as int]);
                }
            }
            if unique_cat_keys(v@) {
                assert forall|a: int, b: int|
                    0 <= a < b < out@.len() implies (#[trigger] out@[a]).0@ != (
                #[trigger] out@[b]).0@ by {
                    if b < out@.len() - 1 {
                        assert(out@[a] == old_out[a] && out@[b] == old_out[b]);
                    } else {
                        assert(out@[a] == old_out[a] && out@[b] == old_rem[best as int]);
                    }
                }
                assert forall|a: int, b: int|
                    0 <= a < b < rem@.len() implies (#[trigger] rem@[a]).0@ != (
                #[trigger] rem@[b]).0@ by {
                    let aa = if a < best { a } else { a + 1 };
                    let bb = if b < best { b } else { b + 1 };
                    assert(rem@[a] == old_rem[aa] && rem@[b] == old_rem[bb]);
                }
                assert forall|i: int, j: int|
                    0 <= i < out@.len() && 0 <= j < rem@.len() implies (#[trigger] out@[i]).0@
                    != (#[trigger] rem@[j]).0@ by {
                    let jj = if j < best { j } else { j + 1 };
                    assert(rem@[j] == old_rem[jj]);
                    if i < out@.len() - 1 {
                        assert(out@[i] == old_out[i]);
                    } else {
                        assert(out@[i] == old_rem[best as int] && jj != best);
                    }
                }
            }
        }
    }
    proof {
        assert(rem@.to_multiset().len() == 0);
        assert(out@.to_multiset().add(rem@.to_multiset()) =~= out@.to_multiset());
    }
    out
}

/// A category with zero dishes is omitted from rendering entirely:
/// inserting such a category anywhere leaves the rendered blocks
/// unchanged.
pub proof fn lemma_empty_category_omitted(
    cats: Seq<(String, Vec<Dish>)>,
    i: int,
    entry: (String, Vec<Dish>),
)
    requires
        0 <= i <= cats.len(),
        entry.1@.len() == 0,
    ensures
        cat_blocks_spec(cats.insert(i, entry)) == cat_blocks_spec(cats),
    decreases cats.len(),
{
    let w = cats.insert(i, entry);
    if i == 0 {
        assert(w[0] == entry);
        assert(w.skip(1) =~= cats);
    } else {
        assert(w[0] == cats[0]);
        assert(w.skip(1) =~= cats.skip(1).insert(i - 1, entry));
        lemma_empty_category_omitted(cats.skip(1), i - 1, entry);
        assert(cat_blocks_spec(w.skip(1)) == cat_blocks_spec(cats.skip(1)));
    }
}

} // verus!
