//! The fixed set of dining locations. Each site maps one-to-one to the
//! hardcoded page on which its menu is published; the set is never
//! extended at runtime.

use vstd::prelude::*;
use vstd::string::*;

verus! {

/// One of the nine known dining locations.
#[derive(Clone, Copy, PartialEq, Eq, Structural, Hash, Debug)]
pub enum Canteen {
    Academica,
    Ahorn,
    Bayernallee,
    Bistro,
    Eupener,
    Juelich,
    KMAC,
    Sued,
    Vita,
}

impl Canteen {
    /// The fixed source page for this site.
    pub open spec fn url_spec(self) -> Seq<char> {
        match self {
            Canteen::Academica => "https://www.studierendenwerk-aachen.de/speiseplaene/academica-w.html"@,
            Canteen::Ahorn => "https://www.studierendenwerk-aachen.de/speiseplaene/ahornstrasse-w.html"@,
            Canteen::Bayernallee => "https://www.studierendenwerk-aachen.de/speiseplaene/bayernallee-w.html"@,
            Canteen::Bistro => "https://www.studierendenwerk-aachen.de/speiseplaene/templergraben-w.html"@,
            Canteen::Eupener => "https://www.studierendenwerk-aachen.de/speiseplaene/eupenerstrasse-w.html"@,
            Canteen::Juelich => "https://www.studierendenwerk-aachen.de/speiseplaene/juelich-w.html"@,
            Canteen::KMAC => "https://www.studierendenwerk-aachen.de/speiseplaene/kmac-w.html"@,
            Canteen::Sued => "https://www.studierendenwerk-aachen.de/speiseplaene/suedpark-w.html"@,
            Canteen::Vita => "https://www.studierendenwerk-aachen.de/speiseplaene/vita-w.html"@,
        }
    }

    /// Resolves the fixed source page of this site.
    pub fn menu_url(self) -> (r: String)
        ensures
            r@ == self.url_spec(),
    {
        match self {
            Canteen::Academica => String::from_str(
                "https://www.studierendenwerk-aachen.de/speiseplaene/academica-w.html",
            ),
            Canteen::Ahorn => String::from_str(
                "https://www.studierendenwerk-aachen.de/speiseplaene/ahornstrasse-w.html",
            ),
            Canteen::Bayernallee => String::from_str(
                "https://www.studierendenwerk-aachen.de/speiseplaene/bayernallee-w.html",
            ),
            Canteen::Bistro => String::from_str(
                "https://www.studierendenwerk-aachen.de/speiseplaene/templergraben-w.html",
            ),
            Canteen::Eupener => String::from_str(
                "https://www.studierendenwerk-aachen.de/speiseplaene/eupenerstrasse-w.html",
            ),
            Canteen::Juelich => String::from_str(
                "https://www.studierendenwerk-aachen.de/speiseplaene/juelich-w.html",
            ),
            Canteen::KMAC => String::from_str(
                "https://www.studierendenwerk-aachen.de/speiseplaene/kmac-w.html",
            ),
            Canteen::Sued => String::from_str(
                "https://www.studierendenwerk-aachen.de/speiseplaene/suedpark-w.html",
            ),
            Canteen::Vita => String::from_str(
                "https://www.studierendenwerk-aachen.de/speiseplaene/vita-w.html",
            ),
        }
    }

    /// The human-readable name of this site.
    pub open spec fn name_spec(self) -> Seq<char> {
        match self {
            Canteen::Academica => "Academica"@,
            Canteen::Ahorn => "Ahornstraße"@,
            Canteen::Bayernallee => "Bayernallee"@,
            Canteen::Bistro => "Bistro Templergraben"@,
            Canteen::Eupener => "Eupener Straße"@,
            Canteen::Juelich => "Jülich"@,
            Canteen::KMAC => "KMAC"@,
            Canteen::Sued => "Südpark"@,
            Canteen::Vita => "Vita"@,
        }
    }

    pub fn name(self) -> (r: String)
        ensures
            r@ == self.name_spec(),
    {
        match self {
            Canteen::Academica => String::from_str("Academica"),
            Canteen::Ahorn => String::from_str("Ahornstraße"),
            Canteen::Bayernallee => String::from_str("Bayernallee"),
            Canteen::Bistro => String::from_str("Bistro Templergraben"),
            Canteen::Eupener => String::from_str("Eupener Straße"),
            Canteen::Juelich => String::from_str("Jülich"),
            Canteen::KMAC => String::from_str("KMAC"),
            Canteen::Sued => String::from_str("Südpark"),
            Canteen::Vita => String::from_str("Vita"),
        }
    }

    /// All nine sites, in declaration order.
    pub fn all() -> (r: Vec<Canteen>)
        ensures
            r@ =~= seq![
                Canteen::Academica,
                Canteen::Ahorn,
                Canteen::Bayernallee,
                Canteen::Bistro,
                Canteen::Eupener,
                Canteen::Juelich,
                Canteen::KMAC,
                Canteen::Sued,
                Canteen::Vita,
            ],
    {
        let mut v: Vec<Canteen> = Vec::new();
        v.push(Canteen::Academica);
        v.push(Canteen::Ahorn);
        v.push(Canteen::Bayernallee);
        v.push(Canteen::Bistro);
        v.push(Canteen::Eupener);
        v.push(Canteen::Juelich);
        v.push(Canteen::KMAC);
        v.push(Canteen::Sued);
        v.push(Canteen::Vita);
        v
    }
}

} // verus!
