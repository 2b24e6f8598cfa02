use mensa_menu::cache::MenuCache;
use mensa_menu::date::Date;
use mensa_menu::menu::{Dish, Menu};
use mensa_menu::canteen::Canteen;

fn menu_named(name: &str) -> Menu {
    Menu::new(
        vec![(
            "Klassiker".to_string(),
            vec![Dish::new(name.to_string(), Vec::new(), Vec::new(), None)],
        )],
        Vec::new(),
    )
}

fn rendered(m: &Menu) -> String {
    m.fmt_html()
}

#[test]
fn fresh_hit_returns_same_menu_without_fetch() {
    let mut cache = MenuCache::with_config(4, 1000);
    let date = Date::new(2025, 10, 13).unwrap();
    let menu = menu_named("Gulasch");
    let expected = rendered(&menu);
    cache.store(Canteen::Academica, date, menu, 0);
    let first = cache.lookup(Canteen::Academica, date, 400).unwrap();
    let second = cache.lookup(Canteen::Academica, date, 900).unwrap();
    assert_eq!(rendered(&first), expected);
    assert_eq!(rendered(&second), expected);
}

#[test]
fn stale_entry_is_not_served_and_is_replaced() {
    let mut cache = MenuCache::with_config(4, 1000);
    let date = Date::new(2025, 10, 13).unwrap();
    cache.store(Canteen::Vita, date, menu_named("Alt"), 0);
    // Inside the window the entry is served; at its edge it still is.
    assert!(cache.lookup(Canteen::Vita, date, 1000).is_some());
    // After the window has elapsed, nothing is served.
    assert!(cache.lookup(Canteen::Vita, date, 1001).is_none());
    // One refresh replaces the entry wholesale, with the newer timestamp.
    cache.store(Canteen::Vita, date, menu_named("Neu"), 2000);
    let got = cache.lookup(Canteen::Vita, date, 2500).unwrap();
    assert_eq!(rendered(&got), rendered(&menu_named("Neu")));
}

#[test]
fn lru_eviction_with_capacity_two() {
    let mut cache = MenuCache::with_config(2, 10_000);
    let date = Date::new(2025, 10, 13).unwrap();
    cache.store(Canteen::Academica, date, menu_named("A"), 0);
    cache.store(Canteen::Vita, date, menu_named("B"), 0);
    // Touch A so that B becomes least-recently-used.
    assert!(cache.lookup(Canteen::Academica, date, 1).is_some());
    cache.store(Canteen::Sued, date, menu_named("C"), 2);
    // B was evicted; A and C remain.
    assert!(cache.lookup(Canteen::Vita, date, 3).is_none());
    let a = cache.lookup(Canteen::Academica, date, 3).unwrap();
    let c = cache.lookup(Canteen::Sued, date, 3).unwrap();
    assert_eq!(rendered(&a), rendered(&menu_named("A")));
    assert_eq!(rendered(&c), rendered(&menu_named("C")));
}

#[test]
fn distinct_dates_are_distinct_keys() {
    let mut cache = MenuCache::with_config(4, 1000);
    let d1 = Date::new(2025, 10, 13).unwrap();
    let d2 = Date::new(2025, 10, 14).unwrap();
    cache.store(Canteen::Academica, d1, menu_named("Montag"), 0);
    assert!(cache.lookup(Canteen::Academica, d2, 1).is_none());
    assert!(cache.lookup(Canteen::Academica, d1, 1).is_some());
}
