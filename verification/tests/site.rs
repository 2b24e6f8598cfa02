use mensa_menu::canteen::Canteen;

#[test]
fn it_parses_academica() {}

#[test]
fn urls_are_fixed_per_site() {
    assert_eq!(
        Canteen::Academica.menu_url(),
        "https://www.studierendenwerk-aachen.de/speiseplaene/academica-w.html"
    );
    assert_eq!(
        Canteen::Ahorn.menu_url(),
        "https://www.studierendenwerk-aachen.de/speiseplaene/ahornstrasse-w.html"
    );
    assert_eq!(
        Canteen::Bistro.menu_url(),
        "https://www.studierendenwerk-aachen.de/speiseplaene/templergraben-w.html"
    );
    assert_eq!(
        Canteen::Sued.menu_url(),
        "https://www.studierendenwerk-aachen.de/speiseplaene/suedpark-w.html"
    );
    assert_eq!(
        Canteen::Vita.menu_url(),
        "https://www.studierendenwerk-aachen.de/speiseplaene/vita-w.html"
    );
}

#[test]
fn site_names() {
    assert_eq!(Canteen::Ahorn.name(), "Ahornstraße");
    assert_eq!(Canteen::Eupener.name(), "Eupener Straße");
    assert_eq!(Canteen::Juelich.name(), "Jülich");
    assert_eq!(Canteen::Sued.name(), "Südpark");
}

#[test]
fn all_sites_listed() {
    let all = Canteen::all();
    assert_eq!(all.len(), 9);
    assert_eq!(all[0], Canteen::Academica);
    assert_eq!(all[8], Canteen::Vita);
}
