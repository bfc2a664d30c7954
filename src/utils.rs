//! French names of weekdays and months, and the two-letter weekday codes of
//! the catalog.
use vstd::prelude::*;
use crate::date::Weekday;

verus! {

/// The weekday of a two-letter catalog code.
pub open spec fn weekday_code(c: Seq<char>) -> Option<Weekday> {
    if c == seq!['L', 'u'] {
        Some(Weekday::Monday)
    } else if c == seq!['M', 'a'] {
        Some(Weekday::Tuesday)
    } else if c == seq!['M', 'e'] {
        Some(Weekday::Wednesday)
    } else if c == seq!['J', 'e'] {
        Some(Weekday::Thursday)
    } else if c == seq!['V', 'e'] {
        Some(Weekday::Friday)
    } else if c == seq!['S', 'a'] {
        Some(Weekday::Saturday)
    } else if c == seq!['D', 'i'] {
        Some(Weekday::Sunday)
    } else {
        None
    }
}

pub open spec fn day_name(w: Weekday) -> Seq<char> {
    match w {
        Weekday::Monday => "Lundi"@,
        Weekday::Tuesday => "Mardi"@,
        Weekday::Wednesday => "Mercredi"@,
        Weekday::Thursday => "Jeudi"@,
        Weekday::Friday => "Vendredi"@,
        Weekday::Saturday => "Samedi"@,
        Weekday::Sunday => "Dimanche"@,
    }
}

pub open spec fn month_short_name(m: int) -> Seq<char> {
    if m == 1 {
        "Jan"@
    } else if m == 2 {
        "Fév"@
    } else if m == 3 {
        "Mars"@
    } else if m == 4 {
        "Avril"@
    } else if m == 5 {
        "Mai"@
    } else if m == 6 {
        "Juin"@
    } else if m == 7 {
        "Juil"@
    } else if m == 8 {
        "Août"@
    } else if m == 9 {
        "Sep"@
    } else if m == 10 {
        "Oct"@
    } else if m == 11 {
        "Nov"@
    } else {
        "Dec"@
    }
}

/// Short French name of a month numbered 1 to 12.
pub fn month_to_short_fr(month: u8) -> (r: String)
    requires
        1 <= month <= 12,
    ensures
        r@ == month_short_name(month as int),
{
    let s = if month == 1 {
        "Jan"
    } else if month == 2 {
        "Fév"
    } else if month == 3 {
        "Mars"
    } else if month == 4 {
        "Avril"
    } else if month == 5 {
        "Mai"
    } else if month == 6 {
        "Juin"
    } else if month == 7 {
        "Juil"
    } else if month == 8 {
        "Août"
    } else if month == 9 {
        "Sep"
    } else if month == 10 {
        "Oct"
    } else if month == 11 {
        "Nov"
    } else {
        "Dec"
    };
    s.to_owned()
}

/// A weekday as the catalog writes it and as messages name it.
/// Ordered from Monday to Sunday.
#[derive(Debug, Clone, Copy, PartialEq, Eq, PartialOrd, Ord, Structural)]
pub struct Jour(pub Weekday);

impl Jour {
    pub fn inner(&self) -> (r: Weekday)
        ensures
            r == self.0,
    {
        self.0
    }

    /// The weekday of a two-letter code (`Lu`, `Ma`, `Me`, `Je`, `Ve`, `Sa`, `Di`).
    pub fn from_code(c: &[char]) -> (r: Option<Jour>)
        ensures
            r matches Some(j) ==> weekday_code(c@) == Some(j.0),
            r is None ==> weekday_code(c@) is None,
    {
        if c.len() != 2 {
            assert(c@ != seq!['L', 'u'] && c@ != seq!['M', 'a'] && c@ != seq!['M', 'e']
                && c@ != seq!['J', 'e'] && c@ != seq!['V', 'e'] && c@ != seq!['S', 'a']
                && c@ != seq!['D', 'i']);
            return None;
        }
        let a = c[0];
        let b = c[1];
        proof {
            assert(c@ =~= seq![a, b]);
        }
        if a == 'L' && b == 'u' {
            Some(Jour(Weekday::Monday))
        } else if a == 'M' && b == 'a' {
            Some(Jour(Weekday::Tuesday))
        } else if a == 'M' && b == 'e' {
            Some(Jour(Weekday::Wednesday))
        } else if a == 'J' && b == 'e' {
            Some(Jour(Weekday::Thursday))
        } else if a == 'V' && b == 'e' {
            Some(Jour(Weekday::Friday))
        } else if a == 'S' && b == 'a' {
            Some(Jour(Weekday::Saturday))
        } else if a == 'D' && b == 'i' {
            Some(Jour(Weekday::Sunday))
        } else {
            proof {
                assert(seq![a, b] != seq!['L', 'u']) by { assert(seq![a, b][0] == a && seq![a, b][1] == b); }
                assert(seq![a, b] != seq!['M', 'a']) by { assert(seq![a, b][0] == a && seq![a, b][1] == b); }
                assert(seq![a, b] != seq!['M', 'e']) by { assert(seq![a, b][0] == a && seq![a, b][1] == b); }
                assert(seq![a, b] != seq!['J', 'e']) by { assert(seq![a, b][0] == a && seq![a, b][1] == b); }
                assert(seq![a, b] != seq!['V', 'e']) by { assert(seq![a, b][0] == a && seq![a, b][1] == b); }
                assert(seq![a, b] != seq!['S', 'a']) by { assert(seq![a, b][0] == a && seq![a, b][1] == b); }
                assert(seq![a, b] != seq!['D', 'i']) by { assert(seq![a, b][0] == a && seq![a, b][1] == b); }
            }
            None
        }
    }

    /// French name of the day.
    pub fn to_string(&self) -> (r: String)
        ensures
            r@ == day_name(self.0),
    {
        let s = match self.0 {
            Weekday::Monday => "Lundi",
            Weekday::Tuesday => "Mardi",
            Weekday::Wednesday => "Mercredi",
            Weekday::Thursday => "Jeudi",
            Weekday::Friday => "Vendredi",
            Weekday::Saturday => "Samedi",
            Weekday::Sunday => "Dimanche",
        };
        s.to_owned()
    }
}

} // verus!
