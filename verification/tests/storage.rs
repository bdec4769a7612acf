use funknotes::storage::{
    base_meta, base_note, next_id, parse_note_chunk, parse_notes, CounterError,
};
use funknotes::types::Funknote;

fn note(id: usize, title: &str, description: &str, created_on: u64, active: bool) -> Funknote {
    Funknote {
        id,
        title: title.to_string(),
        description: description.to_string(),
        created_on,
        milestone: Vec::new(),
        active,
    }
}

fn same(a: &Funknote, b: &Funknote) -> bool {
    a.id == b.id
        && a.title == b.title
        && a.description == b.description
        && a.created_on == b.created_on
        && a.milestone == b.milestone
        && a.active == b.active
}

#[test]
fn counter_text() {
    assert_eq!(base_meta(1), "(next.id=1)");
    assert_eq!(base_meta(0), "(next.id=0)");
    assert_eq!(base_meta(-12), "(next.id=-12)");
    assert_eq!(base_meta(i64::MAX), "(next.id=9223372036854775807)");
    assert_eq!(base_meta(i64::MIN), "(next.id=-9223372036854775808)");
}

#[test]
fn note_text() {
    let expected = "\n(note.id7.active.start)\n\n7.title: T\n\n7.description: D d\n\n7.date: 1764633600\n\n    ##### Milestones\n\n(note.id.7.end)\n";
    assert_eq!(base_note(&note(7, "T", "D d", 1_764_633_600, true)), expected);
    let inactive = base_note(&note(12, "", "", 0, false));
    assert_eq!(
        inactive,
        "\n(note.id12.inactive.start)\n\n12.title: \n\n12.description: \n\n12.date: 0\n\n    ##### Milestones\n\n(note.id.12.end)\n"
    );
}

#[test]
fn next_identifier() {
    assert_eq!(next_id("(next.id=1)"), Ok((2, "(next.id=2)".to_string())));
    assert_eq!(next_id("  (next.id=41)\n"), Ok((42, "(next.id=42)".to_string())));
    assert_eq!(next_id("=9"), Ok((10, "(next.id=10)".to_string())));
    assert_eq!(next_id("x=+9)))"), Ok((10, "(next.id=10)".to_string())));
    assert_eq!(next_id("(next.id=-1)"), Ok((0, "(next.id=0)".to_string())));
    assert_eq!(next_id("a=b=1"), Err(CounterError::InvalidFormat));
}

#[test]
fn next_identifier_refused() {
    assert_eq!(next_id(""), Err(CounterError::InvalidFormat));
    assert_eq!(next_id("(next.id 1)"), Err(CounterError::InvalidFormat));
    assert_eq!(next_id("(next.id=)"), Err(CounterError::InvalidFormat));
    assert_eq!(next_id("(next.id=1 )"), Err(CounterError::InvalidFormat));
    assert_eq!(next_id("(next.id= 1)"), Err(CounterError::InvalidFormat));
    assert_eq!(next_id("(next.id=x)"), Err(CounterError::InvalidFormat));
    assert_eq!(next_id("(next.id=9223372036854775808)"), Err(CounterError::InvalidFormat));
    assert_eq!(next_id("(next.id=-2)"), Err(CounterError::OutOfRange));
    assert_eq!(next_id("(next.id=-9223372036854775808)"), Err(CounterError::OutOfRange));
    assert_eq!(next_id("(next.id=9223372036854775807)"), Err(CounterError::OutOfRange));
    assert_eq!(CounterError::InvalidFormat.message(), "Invalid counter format");
    assert_eq!(CounterError::OutOfRange.message(), "Counter value out of range");
}

#[test]
fn note_is_read_from_its_chunk() {
    let chunk = "7.active.start)\n\n7.title: T\n\n7.description: D d\n\n7.date: 1764633600\n\n    ##### Milestones\n\n(note.id.7.end)\n";
    let read = parse_note_chunk(chunk, 7).unwrap();
    assert!(same(&read, &note(7, "T", "D d", 1_764_633_600, true)));
}

#[test]
fn note_status_is_read_from_the_first_line() {
    let read = parse_note_chunk("7.inactive.start)\n7.title: T", 7).unwrap();
    assert!(!read.active);
    let read = parse_note_chunk("7.active.start)\n7.title: T\ninactive", 7).unwrap();
    assert!(read.active);
}

#[test]
fn last_line_of_a_field_decides() {
    let chunk = "x\n 1.title:  first \n1.title: second\r\n1.description: a\n1.description:b.date: 4\n1.date: 5\n1.date: x\n";
    let read = parse_note_chunk(chunk, 9).unwrap();
    assert!(same(&read, &note(9, "second", "b.date: 4", 0, true)));
    let read = parse_note_chunk("1.date: +5\n1.title: t.description: d", 1).unwrap();
    assert!(same(&read, &note(1, "t.description: d", "", 5, true)));
}

#[test]
fn note_without_title_is_refused() {
    assert_eq!(parse_note_chunk("", 3).err(), Some("Note 3 missing title".to_string()));
    assert_eq!(
        parse_note_chunk("3.title:   \n3.description: d", 3).err(),
        Some("Note 3 missing title".to_string())
    );
    assert_eq!(
        parse_note_chunk("3.title: t\n3.title:", 30).err(),
        Some("Note 30 missing title".to_string())
    );
}

#[test]
fn written_notes_are_read_back() {
    let first = note(1, "First", "one", 10, true);
    let second = note(2, "Second", "", 20, false);
    let contents = format!("{}{}", base_note(&first), base_note(&second));
    let (notes, warnings) = parse_notes(&contents);
    assert_eq!(notes.len(), 2);
    assert!(same(&notes[0], &first));
    assert!(same(&notes[1], &second));
    assert!(warnings.is_empty());
}

#[test]
fn notes_that_cannot_be_read() {
    let contents = "junk 1.title: before\n(note.id1.active.start)\n1.title:\n(note.idx.title: no id\n(note.id without title line\n(note.id3.active.start)\n3.title: kept\n";
    let (notes, warnings) = parse_notes(contents);
    assert_eq!(notes.len(), 1);
    assert!(same(&notes[0], &note(3, "kept", "", 0, true)));
    assert_eq!(warnings, vec!["Warning: Failed to parse note: Note 1 missing title"]);
}

#[test]
fn empty_file_holds_no_notes() {
    let (notes, warnings) = parse_notes("");
    assert!(notes.is_empty());
    assert!(warnings.is_empty());
    let (notes, warnings) = parse_notes("no mark at all 1.title: x");
    assert!(notes.is_empty());
    assert!(warnings.is_empty());
}
