use wattou::guild_data::read_groups_data;
use wattou::prof::ProfRegistry;

const CATALOG: &str = "M4 Lu 8h-10h Dupont (207)\nP1 Ma 14h-16h Martin (101)\n";
const WEEKS: &str = "05-09-2024\n12-09-2024\n";

#[test]
fn calendar_with_fixed_uids() {
    let gs = read_groups_data(1, CATALOG, WEEKS, "1\nM4\n", &mut ProfRegistry::new()).unwrap();
    let text = gs[0].ics_calendar_with_uids(vec!["abc".to_string()]);
    let expected = "BEGIN:VCALENDAR\r\nVERSION:2.0\r\nPRODID:-//Wattou//Calendrier de colle groupe 1//FR\r\nBEGIN:VEVENT\r\nUID:abc\r\nDTSTAMP:20240902T080000Z\r\nORGANIZER:Dupont\r\nDTSTART:20240902T080000Z\r\nDTEND:20240902T100000Z\r\nCATEGORIES:Colles\r\nSUMMARY:Colle Maths 4 avec Dupont\r\nDESCRIPTION:Colle Maths 4 avec Dupont en salle 207 de 08h-10h\r\nEND:VEVENT\r\nEND:VCALENDAR\r\n";
    assert_eq!(text, expected);
}

#[test]
fn calendar_has_one_event_per_colle() {
    let gs = read_groups_data(3, CATALOG, WEEKS, "1-2\nM4+P1\n", &mut ProfRegistry::new()).unwrap();
    assert!(gs[0].subjects_known());
    let text = gs[0].ics_calendar();
    assert_eq!(text.matches("BEGIN:VEVENT").count(), 4);
    assert!(text.contains("PRODID:-//Wattou//Calendrier de colle groupe 1//FR"));
    assert!(text.contains("DTSTART:20240910T140000Z"));
    let uids: Vec<&str> = text.lines().filter(|l| l.starts_with("UID:")).map(|l| l.trim_end()).collect();
    assert_eq!(uids.len(), 4);
    for u in uids.iter() {
        let id = &u[4..];
        assert_eq!(id.len(), 36);
        assert_eq!(&id[14..15], "4");
    }
    assert_ne!(uids[0], uids[1]);
}

#[test]
fn single_event_properties() {
    let gs = read_groups_data(1, CATALOG, WEEKS, "2\nP1\n", &mut ProfRegistry::new()).unwrap();
    let e = gs[0].colles[0].to_ics_event();
    let text = format!("{}", e);
    assert!(text.contains("DTSTART:20240910T140000Z"));
    assert!(text.contains("DTEND:20240910T160000Z"));
    assert!(text.contains("SUMMARY:Colle Physique 1 avec Martin"));
}
