use wattou::colle::{ColleId, ColleStringFormat};
use wattou::date::Date;
use wattou::error::ParseError;
use wattou::group::Group;
use wattou::guild_data::{read_groups_data, GuildData};
use wattou::prof::ProfRegistry;
use wattou::subscriber::SubscriberData;

const CATALOG: &str = "M4 Lu 8h-10h Dupont (207)\nP1 Ma 14h-16h Martin (101)\nA2 Je 10h-11h Smith (B12)\n";
const WEEKS: &str = "S1 05-09-2024\nS2 12-09-2024\nS3 19-09-2024\n";

/// 2024-09-02T08:00:00Z.
const MONDAY_8H: i64 = 1725264000;

fn groups(grid: &str) -> Result<Vec<Group>, ParseError> {
    read_groups_data(7, CATALOG, WEEKS, grid, &mut ProfRegistry::new())
}

fn summary(g: &Group) -> Vec<(ColleId, (i32, u8, u8), u8)> {
    g.colles.iter().map(|c| (c.id, c.date.to_calendar_date(), c.start_hour)).collect()
}

#[test]
fn grid_example_cross_product() {
    let gs = groups("1-2\nM4+P1\n").unwrap();
    assert_eq!(gs.len(), 1);
    assert_eq!(gs[0].id, 1);
    assert_eq!(gs[0].guild_id, 7);
    assert_eq!(
        summary(&gs[0]),
        vec![
            (ColleId('M', 4), (2024, 9, 2), 8),
            (ColleId('P', 1), (2024, 9, 3), 14),
            (ColleId('M', 4), (2024, 9, 9), 8),
            (ColleId('P', 1), (2024, 9, 10), 14),
        ]
    );
}

#[test]
fn cross_product_counts() {
    let gs = groups("1-2-3 1\nM4+P1+A2 P1\nA2 M4+P1\n").unwrap();
    assert_eq!(gs.len(), 2);
    assert_eq!(gs[0].colles.len(), 3 * 3 + 1);
    assert_eq!(gs[1].colles.len(), 3 + 2);
    assert_eq!(gs[1].id, 2);
}

#[test]
fn groups_are_sorted_by_start() {
    let gs = groups("3 1-2\nA2 M4+P1\nP1+M4 A2\n").unwrap();
    for g in gs.iter() {
        let keys: Vec<i64> = g.colles.iter().map(|c| c.start_unix()).collect();
        for w in keys.windows(2) {
            assert!(w[0] <= w[1]);
        }
    }
    assert_eq!(summary(&gs[0])[0], (ColleId('M', 4), (2024, 9, 2), 8));
}

#[test]
fn unknown_id_is_an_error() {
    assert_eq!(
        groups("1 2\nM4 P1\nM4 Z9\n").unwrap_err(),
        ParseError::UnknownColleId { line: 3, column: 2 }
    );
    assert_eq!(
        groups("1\nM4+M9\n").unwrap_err(),
        ParseError::UnknownColleId { line: 2, column: 1 }
    );
}

#[test]
fn grid_shape_errors() {
    assert_eq!(groups("").unwrap_err(), ParseError::GridShape { line: 1 });
    assert_eq!(groups("1 2\nM4\n").unwrap_err(), ParseError::GridShape { line: 2 });
    assert_eq!(groups("1 2\nM4 P1\nM4 P1 A2\n").unwrap_err(), ParseError::GridShape { line: 3 });
    assert_eq!(groups("1-x\nM4\n").unwrap_err(), ParseError::GridShape { line: 1 });
}

#[test]
fn week_range_errors() {
    assert_eq!(groups("1 4\nM4 P1\n").unwrap_err(), ParseError::WeekRange { column: 2, week: 4 });
    assert_eq!(groups("0\nM4\n").unwrap_err(), ParseError::WeekRange { column: 1, week: 0 });
}

#[test]
fn header_only_grid_has_no_group() {
    assert!(groups("1-2 3\n").unwrap().is_empty());
}

#[test]
fn next_instances_clamps_to_what_is_left() {
    let gs = groups("1-2\nM4+P1\n").unwrap();
    let g = &gs[0];
    let all = g.next_instances(0, 10);
    assert_eq!(all.len(), 4);
    let after_first = g.next_instances(MONDAY_8H + 2 * 3600, 10);
    assert_eq!(after_first.len(), 3);
    assert_eq!(after_first[0].id, ColleId('P', 1));
    let two = g.next_instances(0, 2);
    assert_eq!(two.len(), 2);
    assert!(g.next_instances(i64::MAX, 5).is_empty());
    assert!(g.next_instances(0, 0).is_empty());
    // Every colle of this 2024 schedule has ended by the time the clock is read.
    assert!(g.get_next_colles(3).is_empty());
}

#[test]
fn colle_text_and_hours() {
    let gs = groups("1\nM4\n").unwrap();
    let c = &gs[0].colles[0];
    assert_eq!(c.horaire(), "08h-10h");
    assert_eq!(c.format(ColleStringFormat::Implicit), "M4: Lundi 2 Sep 08h-10h avec Dupont en 207");
    assert_eq!(c.format(ColleStringFormat::Explicit), "Maths 4: Lundi 2 Sep 08h-10h avec Dupont en 207");
    assert_eq!(c.to_string(), "Maths 4: Lundi 2 Sep 08h-10h avec Dupont en 207");
    assert_eq!(c.start_unix(), MONDAY_8H);
    assert_eq!(c.end_unix(), MONDAY_8H + 2 * 3600);
}

#[test]
fn dataset_summary_message() {
    let d = GuildData::new(7, CATALOG, WEEKS, "1 2\nM4 P1\nP1 M4\n", "2\n").unwrap();
    assert_eq!(d.groups.len(), 2);
    assert!(d.get_group(2).is_some());
    assert!(d.get_group(3).is_none());
    assert_eq!(
        d.prochaines_colles_msg(0),
        "# Prochaines colles: \n### Groupe 1 \n- M4: Lundi 2 Sep 08h-10h avec Dupont en 207\n- P1: Mardi 10 Sep 14h-16h avec Martin en 101\n### Groupe 2 (fantôme 👻) \n- P1: Mardi 3 Sep 14h-16h avec Martin en 101\n- M4: Lundi 9 Sep 08h-10h avec Dupont en 207"
    );
}

#[test]
fn dataset_reports_ghost_errors() {
    assert_eq!(
        GuildData::new(7, CATALOG, WEEKS, "1\nM4\n", "1\nfoo\n").unwrap_err(),
        ParseError::GroupId { line: 2 }
    );
    assert_eq!(
        GuildData::new(7, CATALOG, "bad", "1\nM4\n", "").unwrap_err(),
        ParseError::DateParse { line: 1 }
    );
}

#[test]
fn tp_week_message() {
    let d = GuildData::new(7, CATALOG, WEEKS, "1\nM4\n", "").unwrap();
    let monday = Date::from_calendar_date(2024, 9, 2).unwrap();
    assert_eq!(
        d.semaine_tp_msg(monday),
        "Mercredi prochain (4 Sep) le group 1 commence par tp physique et le group 2 par td maths"
    );
    let next_monday = Date::from_calendar_date(2024, 9, 9).unwrap();
    assert_eq!(
        d.semaine_tp_msg(next_monday),
        "Mercredi prochain (11 Sep) le group 1 commence par td maths et le group 2 par tp physique"
    );
}

#[test]
fn reminder_for_english_colle() {
    let d = GuildData::new(7, CATALOG, WEEKS, "1-2-3\nM4+A2\n", "").unwrap();
    let sub = SubscriberData::new_default(1);
    assert_eq!(sub.group_id, 1);
    let c = sub.get_predicate(&d, 0).unwrap();
    assert_eq!(c.id, ColleId('A', 2));
    assert_eq!(c.date.to_calendar_date(), (2024, 9, 5));
    assert!(!sub.should_make_message(c, 0));
    assert!(sub.should_make_message(c, c.start_unix() - 3600));
    assert_eq!(
        sub.create_message(42, c),
        "<@42>, n'oublie pas ton carnet de colle pour ta colle Anglais 2: Jeudi 5 Sep 10h-11h avec Smith en B12"
    );
    assert!(SubscriberData::new_default(9).get_predicate(&d, 0).is_none());
}
