use applicant_search::card::render;
use applicant_search::normalize::normalize;
use applicant_search::ranking::{clamp_score, stable_order};
use applicant_search::record::{courses_of, Record};
use applicant_search::session::{IngestError, Session};

fn read(text: &str) -> (Session, usize) {
    let mut s = Session::new();
    let skipped = s.ingest_text(text);
    (s, skipped)
}

#[test]
fn two_rows_make_three_cards() {
    let (mut s, skipped) = read("Timestamp,First Name,Last Name\n2021-01-01,Ada,Lovelace\n2021-01-02,,\n");
    assert_eq!(skipped, 0);
    assert_eq!(s.cards.len(), 3);
    assert_eq!(s.cards[0], "1.\n• First Name:     Ada\n• Last Name:      Lovelace\n");
    assert_eq!(s.cards[1], "2.\n");
    assert_eq!(s.cards[2], "");
    assert!(s.parsed);
    assert_eq!(s.sort_order, vec![0, 1, 2]);
    s.search("Ada");
    assert_eq!(*s.sort_order.last().unwrap(), 0);
    let shown = s.shown_cards();
    assert_eq!(shown[0], s.cards[0]);
    assert!(s.records[0].score > 0);
    assert_eq!(s.records[1].score, 0);
}

#[test]
fn qualified_courses_render_one_line_each() {
    let (s, _) = read("First Name,Courses Qualified to Grade\nAda,\"Math 101,  CS 201 ,CS305\"\n");
    assert_eq!(
        s.cards[0],
        "1.\n• First Name:     Ada\n• Qualified For:\n                 • Math 101\n                 • CS 201\n                 • CS305\n"
    );
    assert_eq!(s.records[0].qualified_for, "Math 101\n CS 201 \nCS305");
}

#[test]
fn malformed_row_takes_no_index() {
    let (s, skipped) = read("Timestamp,First Name\nt1,Ada\nt2,Bob,extra\nt3,Cy\n");
    assert_eq!(skipped, 1);
    assert_eq!(s.records.len(), 3);
    assert_eq!(s.records[0].index, 1);
    assert_eq!(s.records[0].first_name, "Ada");
    assert_eq!(s.records[1].index, 2);
    assert_eq!(s.records[1].first_name, "Cy");
    assert_eq!(s.records[2].index, 0);
    assert_eq!(s.cards[2], "");
}

#[test]
fn indices_restart_in_each_batch_and_batches_append() {
    let mut s = Session::new();
    s.ingest_text("First Name\nA\nB\n");
    s.ingest_text("First Name\nC\n");
    let idx: Vec<usize> = s.records.iter().map(|r| r.index).collect();
    assert_eq!(idx, vec![1, 2, 0, 1, 0]);
    assert_eq!(s.cards[3], "1.\n• First Name:     C\n");
    assert_eq!(s.sort_order, vec![0, 1, 2, 3, 4]);
}

#[test]
fn header_only_file_is_not_parsed() {
    let (s, skipped) = read("First Name,Last Name\n");
    assert_eq!(skipped, 0);
    assert!(!s.parsed);
    assert_eq!(s.cards, vec![String::new()]);
}

#[test]
fn bytes_that_are_not_utf8_change_nothing() {
    let mut s = Session::new();
    s.ingest_text("First Name\nAda\n");
    let before = s.cards.clone();
    assert_eq!(s.ingest(&[0x46, 0xff, 0x0a]), Err(IngestError::Encoding));
    assert_eq!(s.cards, before);
    assert_eq!(s.records.len(), 2);
    assert_eq!(s.ingest("First Name\nBo\n".as_bytes()), Ok(0));
    assert_eq!(s.cards[2], "1.\n• First Name:     Bo\n");
}

#[test]
fn second_email_column_is_the_candidate_email() {
    let (s, _) = read("Email Address,First Name,Email Address\nsub@x.org,Ada,ada@x.org\n");
    assert_eq!(s.records[0].submit_email, "sub@x.org");
    assert_eq!(s.records[0].candidate_email, "ada@x.org");
    assert_eq!(s.cards[0], "1.\n• First Name:     Ada\n• Email:          ada@x.org\n");
}

#[test]
fn degree_abbreviations_are_written_out_before_reading() {
    let (s, _) = read("Degree Program\nMS in Computer Science\nBS in Computer Science\n");
    assert_eq!(s.records[0].degree, "Masters in Computer Science");
    assert_eq!(s.records[1].degree, "Bachelors in Computer Science");
    assert_eq!(s.cards[1], "2.\n• Degree Program: Bachelors in Computer Science\n");
}

#[test]
fn all_fields_render_in_fixed_order() {
    let text = "First Name,Last Name,UNC Charlotte ID (800#) ,Email Address,Phone Number,Student Status,Degree Program,Date Program Entered,GPA,Credit Hours Completed,Currently Working on Campus?,Courses Qualified to Grade,\"Other skills or information you would like to provide (e.g.  Dean's List, Chancellor's List, Prior TA experience, etc.)\",Gender\nA,B,800,e@x,555,Full,PhD,2020,4.0,30,No,C1,  Dean's List  ,F\n";
    let (s, _) = read(text);
    assert_eq!(
        s.cards[0],
        "1.\n• First Name:     A\n• Last Name:      B\n• Student ID:     800\n• Email:          e@x\n• Phone Number:   555\n• Student Status: Full\n• Degree Program: PhD\n• Program Entry:  2020\n• GPA:            4.0\n• Credit Hours:   30\n• Working?:       No\n• Qualified For:\n                 • C1\n• Other:          Dean's List\n"
    );
    assert_eq!(s.records[0].gender, "F");
}

#[test]
fn search_twice_gives_the_same_order() {
    let (mut s, _) = read("First Name\nBob\nAda\nAdam\nZed\n");
    s.search("ad");
    let first = s.sort_order.clone();
    s.search("ad");
    assert_eq!(s.sort_order, first);
}

#[test]
fn unmatched_query_scores_zero() {
    let (mut s, _) = read("First Name\nAda\nBob\n");
    s.search("qqq");
    for r in &s.records {
        assert_eq!(r.score, 0);
    }
    assert_eq!(s.sort_order, vec![0, 1, 2]);
}

#[test]
fn empty_query_keeps_stored_order() {
    let (mut s, _) = read("First Name\nAda\nBob\nCy\n");
    s.search("Bob");
    s.search("");
    assert_eq!(s.sort_order, vec![0, 1, 2, 3]);
    assert_eq!(s.shown_cards()[0], "");
}

#[test]
fn stable_order_keeps_ties_in_position_order() {
    assert_eq!(stable_order(&vec![5, 1, 5, 0, 1]), vec![3, 1, 4, 0, 2]);
    assert_eq!(stable_order(&vec![]), Vec::<usize>::new());
}

#[test]
fn clamp_turns_no_match_into_zero() {
    assert_eq!(clamp_score(None), 0);
    assert_eq!(clamp_score(Some(42)), 42);
}

#[test]
fn normalize_expands_both_degree_names() {
    assert_eq!(
        normalize("I hold an MS in Computer Science and a BS in Computer Science."),
        "I hold an Masters in Computer Science and a Bachelors in Computer Science."
    );
    let out = normalize("x MS in Computer Science y MS in Computer Science");
    assert!(out.contains("Masters in Computer Science"));
    assert!(!out.contains("MS in Computer Science"));
    assert_eq!(normalize("ms in computer science"), "ms in computer science");
}

#[test]
fn blank_record_renders_header_only() {
    let mut r = Record::spacer();
    r.index = 12;
    assert_eq!(render(&r), "12.\n");
    r.index = 7;
    assert_eq!(render(&r), "7.\n");
}

#[test]
fn courses_collapse_white_space_and_split_on_commas() {
    assert_eq!(courses_of("  Math\t101 ,\n CS 201,"), "Math 101 \n CS 201\n");
    assert_eq!(courses_of(""), "");
}

#[test]
fn other_is_trimmed_and_blank_fields_are_omitted() {
    let (s, _) = read("First Name,Last Name,\"Other skills or information you would like to provide (e.g.  Dean's List, Chancellor's List, Prior TA experience, etc.)\"\n,Lovelace,\"  tutor \"\n");
    assert_eq!(s.cards[0], "1.\n• Last Name:      Lovelace\n• Other:          tutor\n");
}

#[test]
fn ingest_rows_on_given_values() {
    let mut s = Session::new();
    let headers = vec!["Last Name".to_string(), "First Name".to_string()];
    let rows = vec![
        None,
        Some(vec!["Hopper".to_string(), "Grace".to_string()]),
        Some(vec!["Knuth".to_string()]),
        None,
    ];
    assert_eq!(s.ingest_rows(&headers, &rows), 2);
    assert_eq!(s.records.len(), 3);
    assert_eq!(s.records[0].index, 1);
    assert_eq!(s.cards[0], "1.\n• First Name:     Grace\n• Last Name:      Hopper\n");
    assert_eq!(s.records[1].index, 2);
    assert_eq!(s.cards[1], "2.\n• Last Name:      Knuth\n");
    assert_eq!(s.cards[2], "");
}
