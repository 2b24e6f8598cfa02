use mensa_menu::date::Date;
use mensa_menu::menu::{Dish, Label};
use mensa_menu::page::{
    extract_from_page, parse_extra_row, parse_menu_dish, BlockNode, CellNode, DishRow, ExtraRow,
    FetcherError, PageModel, SectionNode, TableNode,
};
use mensa_menu::canteen::Canteen;

fn dish_row(cat: &str, desc: &str, price: Option<&str>, classes: &[&str]) -> DishRow {
    DishRow {
        category: Some(cat.to_string()),
        description: Some(desc.to_string()),
        price: price.map(|p| p.to_string()),
        classes: classes.iter().map(|c| c.to_string()).collect(),
    }
}

fn extra_row(cat: Option<&str>, lines: &[&str]) -> ExtraRow {
    let mut cells = Vec::new();
    if let Some(c) = cat {
        cells.push(CellNode {
            classes: vec!["menue-item".to_string(), "extra".to_string(), "menue-category".to_string()],
            first_text: Some(c.to_string()),
            texts: Vec::new(),
        });
    }
    cells.push(CellNode {
        classes: vec!["menue-item".to_string(), "extra".to_string(), "menue-desc".to_string()],
        first_text: None,
        texts: lines.iter().map(|l| l.to_string()).collect(),
    });
    ExtraRow { cells }
}

fn page_for(title: &str, dishes: Vec<DishRow>, extras: Vec<ExtraRow>) -> PageModel {
    let menues = TableNode {
        classes: vec!["menues".to_string()],
        dish_rows: dishes,
        extra_rows: Vec::new(),
    };
    let extra_tbl = TableNode {
        classes: vec!["extras".to_string()],
        dish_rows: Vec::new(),
        extra_rows: extras,
    };
    PageModel {
        sections: vec![SectionNode {
            title: Some(title.to_string()),
            blocks: vec![BlockNode { tables: vec![menues, extra_tbl] }],
        }],
    }
}

#[test]
fn dish_row_splits_description() {
    let row = dish_row("Tellergericht süß", "Gulasch | Rind, Sauce, Kartoffeln", None, &[]);
    let (cat, dish) = parse_menu_dish(&row).unwrap();
    assert_eq!(cat, "Tellergericht");
    let expected = Dish::new(
        "Gulasch".to_string(),
        vec!["Rind, Sauce, Kartoffeln".to_string()],
        Vec::new(),
        None,
    );
    assert_eq!(dish, expected);
}

#[test]
fn dish_row_reads_labels_in_order() {
    let row = dish_row("Klassiker", "Schnitzel | Pommes", Some(" 2,80 € "), &["odd", "vegan", "Rind", "bunt"]);
    let (_, dish) = parse_menu_dish(&row).unwrap();
    assert_eq!(dish.labels, vec![Label::Vegan, Label::Beef]);
    assert_eq!(dish.price, Some("2,80 €".to_string()));
}

#[test]
fn dish_row_without_category_fails() {
    let mut row = dish_row("Klassiker", "Eintopf", None, &[]);
    row.category = None;
    let e = parse_menu_dish(&row).unwrap_err();
    assert_eq!(
        e,
        FetcherError::ElementNotFound {
            tag: "span".to_string(),
            cls: vec!["menue-category".to_string()]
        }
    );
    let blank = dish_row("   ", "Eintopf", None, &[]);
    assert!(parse_menu_dish(&blank).is_err());
}

#[test]
fn dish_row_without_description_fails() {
    let mut row = dish_row("Klassiker", "x", None, &[]);
    row.description = None;
    let e = parse_menu_dish(&row).unwrap_err();
    assert_eq!(
        e,
        FetcherError::ElementNotFound {
            tag: "span".to_string(),
            cls: vec!["menue-desc".to_string(), "expand-nutr".to_string()]
        }
    );
}

#[test]
fn extras_row_or_joins_lines() {
    let one = parse_extra_row(&extra_row(Some("Hauptbeilagen"), &["A"])).unwrap();
    assert_eq!(one.extra, "A");
    let three = parse_extra_row(&extra_row(Some("Hauptbeilagen"), &["A", "B", "C"])).unwrap();
    assert_eq!(three.extra, "A, B oder C");
    assert_eq!(three.category, "Hauptbeilagen");
    let none = parse_extra_row(&extra_row(None, &["A", "B"])).unwrap();
    assert_eq!(none.category, "");
    let empty = parse_extra_row(&extra_row(Some("X"), &[])).unwrap();
    assert_eq!(empty.extra, "");
}

#[test]
fn extras_row_without_description_cell_fails() {
    let row = ExtraRow {
        cells: vec![CellNode {
            classes: vec!["menue-item".to_string(), "extra".to_string(), "menue-category".to_string()],
            first_text: Some("X".to_string()),
            texts: Vec::new(),
        }],
    };
    let e = parse_extra_row(&row).unwrap_err();
    assert_eq!(
        e,
        FetcherError::ElementNotFound {
            tag: "span".to_string(),
            cls: vec!["menue-desc".to_string()]
        }
    );
}

#[test]
fn closed_when_no_date_matches() {
    let page = page_for(
        "Speiseplan vom 14.10.2025",
        vec![dish_row("Klassiker", "Eintopf | Brot", None, &[])],
        Vec::new(),
    );
    let date = Date::new(2025, 10, 13).unwrap();
    let r = extract_from_page(&page, Canteen::Academica, date);
    assert_eq!(
        r.unwrap_err(),
        FetcherError::CanteenClosed { canteen: Canteen::Academica, date }
    );
}

#[test]
fn missing_tables_are_structural() {
    let date = Date::new(2025, 10, 13).unwrap();
    let only_extras = PageModel {
        sections: vec![SectionNode {
            title: Some("13.10.2025".to_string()),
            blocks: vec![BlockNode {
                tables: vec![TableNode {
                    classes: vec!["extras".to_string()],
                    dish_rows: Vec::new(),
                    extra_rows: Vec::new(),
                }],
            }],
        }],
    };
    let e = extract_from_page(&only_extras, Canteen::Vita, date).unwrap_err();
    assert_eq!(
        e,
        FetcherError::ElementNotFound { tag: "table".to_string(), cls: vec!["menues".to_string()] }
    );
    let only_menues = PageModel {
        sections: vec![SectionNode {
            title: Some("13.10.2025".to_string()),
            blocks: vec![BlockNode {
                tables: vec![TableNode {
                    classes: vec!["MENUES".to_string()],
                    dish_rows: Vec::new(),
                    extra_rows: Vec::new(),
                }],
            }],
        }],
    };
    let e2 = extract_from_page(&only_menues, Canteen::Vita, date).unwrap_err();
    assert_eq!(
        e2,
        FetcherError::ElementNotFound { tag: "table".to_string(), cls: vec!["extras".to_string()] }
    );
}

#[test]
fn full_extraction_renders_sorted() {
    let date = Date::new(2025, 10, 13).unwrap();
    let page = page_for(
        "Speiseplan vom 13.10.2025",
        vec![
            dish_row("Vegetarisch süß", "Knödel | Soße", Some("2,00 €"), &["OLV"]),
            dish_row("Klassiker Menü", "Gulasch | Rind, Sauce", Some("3,10 €"), &["Rind"]),
        ],
        vec![extra_row(Some("Hauptbeilagen"), &["Reis", "Nudeln"])],
    );
    let menu = extract_from_page(&page, Canteen::Academica, date).unwrap();
    let html = menu.fmt_html();
    let expected = "<em>Klassiker</em> \u{1F374}\n<strong>Gulasch</strong> | Rind, Sauce \u{1F42E} – <strong>3,10 €</strong>\n\n<em>Vegetarisch</em> \u{1F966}\n<strong>Knödel</strong> | Soße \u{1F331} – <strong>2,00 €</strong>\n\n<em>Hauptbeilagen</em>: Reis oder Nudeln";
    assert_eq!(html, expected);
}
