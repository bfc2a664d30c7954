use wattou::colle::{Colle, ColleId};
use wattou::date::{Date, Weekday};
use wattou::error::{ColleParsingError, ParseError};
use wattou::guild_data::{parse_catalog, read_ghost_groups, read_weeks_data, GuildData};
use wattou::prof::ProfRegistry;
use wattou::utils::{month_to_short_fr, Jour};

fn ymd(d: &Date) -> (i32, u8, u8) {
    d.to_calendar_date()
}

#[test]
fn catalog_line_example() {
    let mut profs = ProfRegistry::new();
    let d = Colle::parse_string("M4 Lu 8h-10h Dupont (207)", &mut profs).unwrap();
    assert_eq!(d.id, ColleId('M', 4));
    assert_eq!(d.jour, Jour(Weekday::Monday));
    assert_eq!((d.start_hour, d.end_hour), (8, 10));
    assert_eq!(d.room, "207");
    assert_eq!(d.prof.name(), "Dupont");
    assert_eq!(profs.len(), 1);
}

#[test]
fn catalog_line_multiword_instructor_and_room() {
    let mut profs = ProfRegistry::new();
    let d = Colle::parse_string("A12 Ve 17h-18h Mme de la Tour (salle B)", &mut profs).unwrap();
    assert_eq!(d.id, ColleId('A', 12));
    assert_eq!(d.jour, Jour(Weekday::Friday));
    assert_eq!((d.start_hour, d.end_hour), (17, 18));
    assert_eq!(d.room, "salle B");
    assert_eq!(d.prof.name(), "Mme de la Tour");
}

#[test]
fn catalog_line_with_trailing_slot() {
    let mut profs = ProfRegistry::new();
    let d = Colle::parse_string("P3 Jean Martin Me 13h-15h (B 12)", &mut profs).unwrap();
    assert_eq!(d.id, ColleId('P', 3));
    assert_eq!(d.jour, Jour(Weekday::Wednesday));
    assert_eq!((d.start_hour, d.end_hour), (13, 15));
    assert_eq!(d.room, "B 12");
    assert_eq!(d.prof.name(), "Jean Martin");
    assert_eq!(
        Colle::parse_string("P3 Jean Martin Me 13h30-15h (B 12)", &mut profs).unwrap_err(),
        ColleParsingError::BadHours
    );
}

#[test]
fn catalog_parse_is_deterministic_over_corpus() {
    let corpus = [
        "M4 Lu 8h-10h Dupont (207)",
        "P1 Ma 14h-16h Martin (101)",
        "A2 Je 10h-11h Smith (B12)",
        "X1 Lu 8h-10h Dupont (207)",
        "M4 Lu 8h-10h Dupont 207",
        "M4 Xx 8h-10h Dupont (207)",
        "M4 Lu 8h-25h Dupont (207)",
        "",
    ];
    for line in corpus.iter() {
        let a = Colle::parse_string(line, &mut ProfRegistry::new());
        let b = Colle::parse_string(line, &mut ProfRegistry::new());
        match (a, b) {
            (Ok(x), Ok(y)) => {
                assert_eq!(x.id, y.id);
                assert_eq!(x.jour, y.jour);
                assert_eq!((x.start_hour, x.end_hour), (y.start_hour, y.end_hour));
                assert_eq!(x.room, y.room);
                assert_eq!(x.prof.name(), y.prof.name());
            }
            (Err(x), Err(y)) => assert_eq!(x, y),
            _ => panic!("two parses of {:?} disagree", line),
        }
    }
}

#[test]
fn catalog_line_errors() {
    let mut profs = ProfRegistry::new();
    let cases = [
        ("M4 Lu 8h-10h Dupont 207", ColleParsingError::MissingRoom),
        ("M4 Lu 8h-10h Dupont(207)", ColleParsingError::MissingRoom),
        ("", ColleParsingError::MissingRoom),
        (" (207)", ColleParsingError::MissingToken),
        ("X4 Lu 8h-10h Dupont (207)", ColleParsingError::IdParsingFailed),
        ("M Lu 8h-10h Dupont (207)", ColleParsingError::IdParsingFailed),
        ("M4 (207)", ColleParsingError::MissingToken),
        ("M4 8h-10h (207)", ColleParsingError::MissingToken),
        ("M4 Lu 8h-10h-12h Dupont (207)", ColleParsingError::BadHours),
        ("M4 Lu 8-10 Dupont (207)", ColleParsingError::BadHours),
        ("M4 Lu 8h-24h Dupont (207)", ColleParsingError::BadHours),
        ("M4 Dupont Xy 8h-10h (207)", ColleParsingError::BadWeekday),
        ("M4 Xy 8h-10h Dupont (207)", ColleParsingError::BadHours),
    ];
    for (line, err) in cases.iter() {
        match Colle::parse_string(line, &mut profs) {
            Err(e) => assert_eq!(e, *err, "line {:?}", line),
            Ok(_) => panic!("line {:?} should be refused", line),
        }
    }
    assert_eq!(profs.len(), 0);
}

#[test]
fn registry_shares_instructors() {
    let mut profs = ProfRegistry::new();
    let text = "M4 Lu 8h-10h Dupont (207)\nP1 Ma 14h-16h Martin (101)\nM5 Me 8h-10h Dupont (208)\n";
    let entries = parse_catalog(text, &mut profs).unwrap();
    assert_eq!(entries.len(), 3);
    assert_eq!(profs.len(), 2);
    assert!(std::sync::Arc::ptr_eq(&entries[0].prof, &entries[2].prof));
}

#[test]
fn catalog_error_reports_line() {
    let mut profs = ProfRegistry::new();
    let text = "M4 Lu 8h-10h Dupont (207)\nM5 Dupont Zz 8h-10h (208)\n";
    assert_eq!(
        parse_catalog(text, &mut profs).unwrap_err(),
        ParseError::CatalogLine { line: 2, cause: ColleParsingError::BadWeekday }
    );
}

#[test]
fn colle_id_forms() {
    assert_eq!(ColleId('M', 4).to_string(), "M4");
    assert_eq!(ColleId('M', 4).explicit(), "Maths 4");
    assert_eq!(ColleId('P', 12).explicit(), "Physique 12");
    assert_eq!(ColleId('A', 0).explicit(), "Anglais 0");
    let t: Vec<char> = "P255".chars().collect();
    assert_eq!(ColleId::parse(&t), Some(ColleId('P', 255)));
    let t: Vec<char> = "P256".chars().collect();
    assert_eq!(ColleId::parse(&t), None);
}

#[test]
fn weeks_table_reads_last_token() {
    let w = read_weeks_data("Semaine 1 05-09-2024\n12-9-2024\nS3  19-9-+2024\n").unwrap();
    assert_eq!(w.len(), 3);
    assert_eq!(ymd(&w[0]), (2024, 9, 5));
    assert_eq!(ymd(&w[1]), (2024, 9, 12));
    assert_eq!(ymd(&w[2]).0, 2024);
    assert_eq!(w[0].julian_day(), 2460559);
}

#[test]
fn weeks_table_errors() {
    assert_eq!(read_weeks_data("05-09-2024\n31-02-2024\n").unwrap_err(), ParseError::DateParse { line: 2 });
    assert_eq!(read_weeks_data("05-09-24\n").unwrap_err(), ParseError::DateParse { line: 1 });
    assert_eq!(read_weeks_data("\n").unwrap_err(), ParseError::DateParse { line: 1 });
    assert_eq!(read_weeks_data("005-09-2024").unwrap_err(), ParseError::DateParse { line: 1 });
    assert_eq!(read_weeks_data("5-13-2024").unwrap_err(), ParseError::DateParse { line: 1 });
    assert_eq!(read_weeks_data("0-12-2024").unwrap_err(), ParseError::DateParse { line: 1 });
    assert!(read_weeks_data("").unwrap().is_empty());
}

#[test]
fn leap_day_is_accepted() {
    let w = read_weeks_data("29-02-2024").unwrap();
    assert_eq!(ymd(&w[0]), (2024, 2, 29));
}

#[test]
fn projection_example() {
    let anchors = vec![Date::from_calendar_date(2024, 9, 5).unwrap()];
    let d = GuildData::get_date(&anchors, 1, Jour(Weekday::Monday));
    assert_eq!(ymd(&d), (2024, 9, 2));
    assert_eq!(d.weekday(), Weekday::Monday);
}

#[test]
fn projection_on_anchor_weekday_keeps_anchor_week() {
    // 2024-09-02 is a Monday: minus seven days, then the next Monday, is the anchor itself.
    let anchors = vec![Date::from_calendar_date(2024, 9, 2).unwrap()];
    let d = GuildData::get_date(&anchors, 1, Jour(Weekday::Monday));
    assert_eq!(ymd(&d), (2024, 9, 2));
}

#[test]
fn projection_lands_on_every_weekday() {
    let anchors = vec![
        Date::from_calendar_date(2024, 9, 5).unwrap(),
        Date::from_calendar_date(2024, 12, 31).unwrap(),
    ];
    let days = [
        Weekday::Monday,
        Weekday::Tuesday,
        Weekday::Wednesday,
        Weekday::Thursday,
        Weekday::Friday,
        Weekday::Saturday,
        Weekday::Sunday,
    ];
    for week in 1..=2usize {
        for w in days.iter() {
            let d = GuildData::get_date(&anchors, week, Jour(*w));
            assert_eq!(d.weekday(), *w);
            let a = anchors[week - 1].julian_day();
            assert!(a - 7 < d.julian_day() && d.julian_day() <= a);
        }
    }
}

#[test]
fn ghost_groups_list() {
    assert_eq!(read_ghost_groups("3\n10\n").unwrap(), vec![3usize, 10]);
    assert_eq!(read_ghost_groups("3\nx\n").unwrap_err(), ParseError::GroupId { line: 2 });
    assert!(read_ghost_groups("").unwrap().is_empty());
}

#[test]
fn day_and_month_names() {
    assert_eq!(Jour(Weekday::Monday).to_string(), "Lundi");
    assert_eq!(Jour(Weekday::Sunday).to_string(), "Dimanche");
    assert_eq!(month_to_short_fr(2), "Fév");
    assert_eq!(month_to_short_fr(9), "Sep");
    let code: Vec<char> = "Me".chars().collect();
    assert_eq!(Jour::from_code(&code), Some(Jour(Weekday::Wednesday)));
    assert_eq!(Jour(Weekday::Thursday).inner(), Weekday::Thursday);
}

#[test]
fn date_bounds() {
    assert!(Date::from_calendar_date(10000, 1, 1).is_none());
    assert!(Date::from_calendar_date(-9999, 1, 1).is_some());
    assert!(Date::from_julian_day(wattou::date::MIN_JULIAN_DAY - 1).is_none());
    let d = Date::from_julian_day(2460556).unwrap();
    assert_eq!(ymd(&d), (2024, 9, 2));
    assert_eq!(d.iso_week(), 36);
    let first = Date::from_calendar_date(-9999, 1, 1).unwrap();
    assert_eq!(first.julian_day(), wattou::date::MIN_JULIAN_DAY);
    let last = Date::from_calendar_date(9999, 12, 31).unwrap();
    assert_eq!(last.julian_day(), wattou::date::MAX_JULIAN_DAY);
    assert_eq!(Date::from_calendar_date(1970, 1, 1).unwrap().julian_day(), wattou::date::UNIX_EPOCH_JULIAN_DAY);
    assert_eq!(first.weekday(), Weekday::Monday);
}

#[test]
fn colle_id_from_str() {
    assert_eq!(<ColleId as std::str::FromStr>::from_str("A3"), Ok(ColleId('A', 3)));
    assert_eq!(<ColleId as std::str::FromStr>::from_str("Q3"), Err(ColleParsingError::IdParsingFailed));
    assert_eq!(<ColleId as std::str::FromStr>::from_str("M"), Err(ColleParsingError::IdParsingFailed));
}
