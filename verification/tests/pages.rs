use gatelogue::error::Error;
use gatelogue::extract::{extract, extractor, flight_from_row, gate_from_row};
use gatelogue::pages::{astrella, dfm, mwt, turbula, vda, ASTRELLA_PAGE, MWT_PAGE};

#[test]
fn airport_page_gives_a_gate_for_each_row() {
    let text = "{|\n|-\n|A1\n|[[Astrella]]\n|-\n|A2\n|[[BluAir|Blu Air]]\n|-\n|A3\n|\n|}";
    let gates = mwt(text).unwrap();
    assert_eq!(gates.len(), 3);
    assert_eq!(gates[0].airport, "MWT");
    assert_eq!(gates[0].gate_code, "A1");
    assert_eq!(gates[0].airline.as_deref(), Some("Astrella"));
    assert_eq!(gates[0].size, None);
    assert_eq!(gates[0].source, MWT_PAGE);
    assert_eq!(gates[1].gate_code, "A2");
    assert_eq!(gates[1].airline.as_deref(), Some("Blu Air"));
    assert_eq!(gates[2].gate_code, "A3");
    assert_eq!(gates[2].airline, None);
}

#[test]
fn airport_page_reads_size_and_second_airline_group() {
    let text = "|Gate 4\n|S\n|Some Airline|";
    let gates = dfm(text).unwrap();
    assert_eq!(gates.len(), 1);
    assert_eq!(gates[0].airport, "DFM");
    assert_eq!(gates[0].gate_code, "4");
    assert_eq!(gates[0].size.as_deref(), Some("S"));
    assert_eq!(gates[0].airline.as_deref(), Some("Some Airline"));
    let text = "|7||Desert Air||";
    let gates = vda(text).unwrap();
    assert_eq!(gates[0].gate_code, "7");
    assert_eq!(gates[0].airline.as_deref(), Some("Desert Air"));
}

#[test]
fn page_without_a_match_fails() {
    match mwt("nothing to see") {
        Err(Error::ExtractionFailure(page)) => assert_eq!(page, MWT_PAGE),
        other => panic!("unexpected: {:?}", other),
    }
    match astrella("") {
        Err(Error::ExtractionFailure(page)) => assert_eq!(page, ASTRELLA_PAGE),
        other => panic!("unexpected: {:?}", other),
    }
}

#[test]
fn invalid_pattern_fails() {
    match extractor("Some page", "ABC", "(unclosed", "text") {
        Err(Error::ExtractionFailure(page)) => assert_eq!(page, "Some page"),
        other => panic!("unexpected: {:?}", other),
    }
    assert!(extract("X", "Some page", "", "(unclosed", "text").is_err());
}

#[test]
fn airline_page_gives_two_gates_and_a_flight() {
    let text = "{{AstrellaFlight|code = AT100|airport1 = PCE|gate1 = 12|airport2 = MWT|gate2 = 3|size = M|status = active}}";
    let flights = astrella(text).unwrap();
    assert_eq!(flights.len(), 1);
    let (from, to, number) = &flights[0];
    assert_eq!(number, "AT100");
    assert_eq!(from.airport, "PCE");
    assert_eq!(from.gate_code, "12");
    assert_eq!(from.airline.as_deref(), Some("Astrella"));
    assert_eq!(from.size.as_deref(), Some("M"));
    assert_eq!(from.source, ASTRELLA_PAGE);
    assert_eq!(to.airport, "MWT");
    assert_eq!(to.gate_code, "3");
}

#[test]
fn airline_page_without_gate_groups_marks_codes_unknown() {
    let text = "code = LU12 x airport1 = PCE y airport2 = MWT z status = active";
    let flights = turbula(text).unwrap();
    assert_eq!(flights.len(), 1);
    assert_eq!(flights[0].0.gate_code, "?");
    assert_eq!(flights[0].1.gate_code, "?");
    assert_eq!(flights[0].0.size, None);
    assert_eq!(flights[0].2, "LU12");
}

#[test]
fn flight_code_gets_the_prefix() {
    let row = vec![
        Some("PCE".to_string()),
        None,
        Some("MWT".to_string()),
        Some("2".to_string()),
        None,
        Some("77".to_string()),
    ];
    let (from, to, number) = flight_from_row("IntraAir", "page", "IA", &row).unwrap();
    assert_eq!(number, "IA77");
    assert_eq!(from.gate_code, "?");
    assert_eq!(to.gate_code, "2");
}

#[test]
fn overlong_airport_code_drops_the_sighting() {
    let row = vec![Some("1".to_string()), None, None, None];
    assert!(gate_from_row("page", "ABCD", &row).is_some());
    assert!(gate_from_row("page", "ABCDE", &row).is_none());
    assert!(gate_from_row("page", "\u{e9}\u{e9}\u{e9}", &row).is_none());
    assert!(gate_from_row("page", "\u{e9}\u{e9}", &row).is_some());
    let no_code = vec![None, Some("X".to_string()), None, None];
    assert!(gate_from_row("page", "ABC", &no_code).is_none());
    let flight = vec![
        Some("TOOLONG".to_string()),
        None,
        Some("MWT".to_string()),
        None,
        None,
        Some("1".to_string()),
    ];
    assert!(flight_from_row("A", "page", "", &flight).is_none());
    let short = vec![Some("1".to_string())];
    assert!(gate_from_row("page", "ABC", &short).is_none());
}

#[test]
fn page_whose_matches_are_all_passed_over_yields_no_sighting() {
    let gates = extractor("Some page", "TOOLONG", r"(?P<code>\d+)", "1 2 3").unwrap();
    assert!(gates.is_empty());
    let flights = extract(
        "X",
        "Some page",
        "",
        r"(?P<code>\d+) (?P<a1>\w+) (?P<a2>\w+)",
        "1 TOOLONG MWT 2 PCE OVERLONG",
    )
    .unwrap();
    assert!(flights.is_empty());
    let gates = extractor("Some page", "ABC", r"(?P<code>\d+)", "1 2 3").unwrap();
    assert_eq!(gates.len(), 3);
    assert!(matches!(
        extractor("Some page", "TOOLONG", r"(?P<code>\d+)", "none"),
        Err(Error::ExtractionFailure(_))
    ));
}
