use mensa_menu::canteen::Canteen;
use mensa_menu::date::Date;
use mensa_menu::dom::extract_menu;
use mensa_menu::page::FetcherError;

fn page_markup() -> String {
    [
        "<html><body><div class=\"accordion\"><div>",
        "<h3><a>Speiseplan vom 13.10.2025</a></h3>",
        "<div>",
        "<table class=\"menues\"><tbody>",
        "<tr class=\"odd Rind\"><td>",
        "<span class=\"menue-category\">Tellergericht s\u{fc}\u{df}</span>",
        "<span class=\"menue-desc\"><span class=\"expand-nutr\">Gulasch | Rind, Sauce, Kartoffeln</span></span>",
        "<span class=\"menue-price\">2,80 \u{20ac}</span>",
        "</td></tr>",
        "</tbody></table>",
        "<table class=\"extras\"><tbody>",
        "<tr><td><span class=\"menue-wrapper\">",
        "<span class=\"menue-item extra menue-category\">Hauptbeilagen</span>",
        "<span class=\"menue-item extra menue-desc\">Reis<sup>1</sup>Nudeln</span>",
        "</span></td></tr>",
        "</tbody></table>",
        "</div></div></div></body></html>",
    ]
    .join("")
}

#[test]
fn extracts_menu_from_markup() {
    let date = Date::new(2025, 10, 13).unwrap();
    let menu = extract_menu(&page_markup(), Canteen::Academica, date).unwrap();
    let expected = "<em>Tellergericht</em> \u{1F372}\n<strong>Gulasch</strong> | Rind, Sauce, Kartoffeln \u{1F42E} – <strong>2,80 \u{20ac}</strong>\n\n<em>Hauptbeilagen</em>: Reis oder Nudeln";
    assert_eq!(menu.fmt_html(), expected);
}

#[test]
fn markup_without_matching_date_is_closed() {
    let date = Date::new(2025, 10, 14).unwrap();
    let e = extract_menu(&page_markup(), Canteen::Vita, date).unwrap_err();
    assert_eq!(e, FetcherError::CanteenClosed { canteen: Canteen::Vita, date });
}

#[test]
fn markup_without_extras_table_is_structural() {
    let markup = [
        "<html><body><div class=\"accordion\"><div>",
        "<h3><a>13.10.2025</a></h3>",
        "<div><table class=\"menues\"><tbody></tbody></table></div>",
        "</div></div></body></html>",
    ]
    .join("");
    let date = Date::new(2025, 10, 13).unwrap();
    let e = extract_menu(&markup, Canteen::Vita, date).unwrap_err();
    assert_eq!(
        e,
        FetcherError::ElementNotFound { tag: "table".to_string(), cls: vec!["extras".to_string()] }
    );
}
