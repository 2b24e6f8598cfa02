use mensa_menu::menu::{category_marker, Category, Dish, Label, Menu, MenuExtra};

fn plain_dish(name: &str) -> Dish {
    Dish::new(name.to_string(), Vec::new(), Vec::new(), None)
}

#[test]
fn dish_renders_every_part() {
    let dish = Dish::new(
        "Gulasch".to_string(),
        vec!["Rind".to_string(), "Sauce".to_string()],
        vec![Label::Beef, Label::Pork],
        Some("3,10 €".to_string()),
    );
    assert_eq!(
        dish.fmt_html(),
        "<strong>Gulasch</strong> | Rind, Sauce \u{1F42E} \u{1F437} – <strong>3,10 €</strong>"
    );
}

#[test]
fn dish_without_price_renders_no_price_segment() {
    let dish = Dish::new("Suppe".to_string(), Vec::new(), Vec::new(), None);
    assert_eq!(dish.fmt_html(), "<strong>Suppe</strong>");
}

#[test]
fn extra_renders_category_and_text() {
    let e = MenuExtra::new("Hauptbeilagen".to_string(), "Reis oder Nudeln".to_string());
    assert_eq!(e.fmt_html(), "<em>Hauptbeilagen</em>: Reis oder Nudeln");
}

#[test]
fn empty_category_is_omitted_and_order_is_lexicographic() {
    let menu = Menu::new(
        vec![
            ("Wok".to_string(), vec![plain_dish("Nudeln")]),
            ("Burger".to_string(), vec![plain_dish("Halloumi")]),
            ("Klassiker".to_string(), Vec::new()),
        ],
        Vec::new(),
    );
    assert_eq!(
        menu.fmt_html(),
        "<em>Burger</em> \u{1F354}\n<strong>Halloumi</strong>\n\n<em>Wok</em> \u{1F961}\n<strong>Nudeln</strong>\n"
    );
}

#[test]
fn extras_render_after_categories() {
    let menu = Menu::new(
        vec![("Pizza".to_string(), vec![plain_dish("Margherita")])],
        vec![
            MenuExtra::new("A".to_string(), "x".to_string()),
            MenuExtra::new("".to_string(), "y".to_string()),
        ],
    );
    assert_eq!(
        menu.fmt_html(),
        "<em>Pizza</em> \u{1F355}\n<strong>Margherita</strong>\n\n<em>A</em>: x\n<em></em>: y"
    );
}

#[test]
fn known_category_markers() {
    assert_eq!(category_marker("Klassiker"), "\u{1F374}");
    assert_eq!(category_marker("Vegetarisch"), "\u{1F966}");
    assert_eq!(category_marker("Tellergericht"), "\u{1F372}");
    assert_eq!(category_marker("Burger"), "\u{1F354}");
    assert_eq!(category_marker("Wok"), "\u{1F961}");
    assert_eq!(category_marker("Pizza"), "\u{1F355}");
    assert_eq!(category_marker("Pasta"), "");
}

#[test]
fn label_markers_and_classes() {
    assert_eq!(Label::Beef.marker(), "\u{1F42E}");
    assert_eq!(Label::of_class("Fisch"), Some(Label::Fish));
    assert_eq!(Label::of_class("OLV"), Some(Label::Veggie));
    assert_eq!(Label::of_class("vegan"), Some(Label::Vegan));
    assert_eq!(Label::of_class("Geflügel"), Some(Label::Chicken));
    assert_eq!(Label::of_class("Schwein"), Some(Label::Pork));
    assert_eq!(Label::of_class("Rind"), Some(Label::Beef));
    assert_eq!(Label::of_class("rind"), None);
    assert_eq!(Label::of_class("odd"), None);
}

#[test]
fn category_names() {
    assert_eq!(Category::Classic.name(), "Klassiker");
    assert_eq!(Category::BurgerWeekly.name(), "Burger der Woche");
    assert_eq!(Category::PlateDish.name(), "Tellergericht");
    assert_eq!(Category::Veggie.name(), "Vegetarisch");
}
