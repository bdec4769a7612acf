//! The texts in which notes are kept: how a note and the counter of
//! identifiers are written, and how they are read back. Reading and writing
//! the files themselves is left to the host.

use crate::chars::{
    contains, has, lines, lines_of, number_within, parse_i64, parse_u64, parse_usize,
    pieces_of, slice_views, split, split_at_first, split_once, text_of, trim, trim_end_matches,
    trimmed, without_trailing,
};
use crate::text::{decimal, decimal_text, texts, to_chars};
use crate::types::Funknote;
use vstd::prelude::*;
use vstd::slice::slice_subrange;
use vstd::string::*;

verus! {

/// The decimal numeral of `n`, with `-` in front of a negative number.
pub open spec fn signed_decimal_text(n: int) -> Seq<char> {
    if n < 0 {
        "-"@ + decimal_text((-n) as nat)
    } else {
        decimal_text(n as nat)
    }
}

/// How the counter of identifiers is written: `(next.id=N)`.
pub open spec fn meta_text(id: int) -> Seq<char> {
    "(next.id="@ + signed_decimal_text(id) + ")"@
}

/// Writes the counter of identifiers.
pub fn base_meta(id: i64) -> (text: String)
    ensures
        text@ == meta_text(id as int),
{
    let mut text = "(next.id=".to_owned();
    if id < 0 {
        text.append("-");
        text.append(decimal((-(id as i128)) as u128).as_str());
    } else {
        text.append(decimal(id as u128).as_str());
    }
    text.append(")");
    text
}

/// What is read of a note: the model of a [`Funknote`] without milestones.
pub ghost struct NoteView {
    pub id: usize,
    pub title: Seq<char>,
    pub description: Seq<char>,
    pub created_on: u64,
    pub active: bool,
}

/// The model of a note.
pub open spec fn note_view(note: Funknote) -> NoteView {
    NoteView {
        id: note.id,
        title: note.title@,
        description: note.description@,
        created_on: note.created_on,
        active: note.active,
    }
}

/// How a note is written: a start line with identifier and status, the title,
/// the description and the date, each on a line of its own behind the
/// identifier, the heading of the milestones, and an end line.
pub open spec fn note_text(note: NoteView) -> Seq<char> {
    let id = decimal_text(note.id as nat);
    let status = if note.active {
        "active"@
    } else {
        "inactive"@
    };
    "\n(note.id"@ + id + "."@ + status + ".start)\n\n"@ + id + ".title: "@ + note.title + "\n\n"@
        + id + ".description: "@ + note.description + "\n\n"@ + id + ".date: "@ + decimal_text(
        note.created_on as nat,
    ) + "\n\n    ##### Milestones\n\n(note.id."@ + id + ".end)\n"@
}

/// Writes a note.
pub fn base_note(note: &Funknote) -> (text: String)
    ensures
        text@ == note_text(note_view(*note)),
{
    let id = decimal(note.id as u128);
    let status = if note.active {
        "active"
    } else {
        "inactive"
    };
    let mut text = "\n(note.id".to_owned();
    text.append(id.as_str());
    text.append(".");
    text.append(status);
    text.append(".start)\n\n");
    text.append(id.as_str());
    text.append(".title: ");
    text.append(note.title.as_str());
    text.append("\n\n");
    text.append(id.as_str());
    text.append(".description: ");
    text.append(note.description.as_str());
    text.append("\n\n");
    text.append(id.as_str());
    text.append(".date: ");
    text.append(decimal(note.created_on as u128).as_str());
    text.append("\n\n    ##### Milestones\n\n(note.id.");
    text.append(id.as_str());
    text.append(".end)\n");
    text
}

/// Why the counter of identifiers could not be advanced.
#[derive(Debug, PartialEq, Eq, Clone, Copy, Structural)]
pub enum CounterError {
    /// The text holds no `=` with a number behind it.
    InvalidFormat,
    /// The next identifier is negative or too large.
    OutOfRange,
}

impl CounterError {
    /// The text of the error.
    pub open spec fn message_text(self) -> Seq<char> {
        match self {
            CounterError::InvalidFormat => "Invalid counter format"@,
            CounterError::OutOfRange => "Counter value out of range"@,
        }
    }

    /// The text of the error, as it is shown to the user.
    pub fn message(&self) -> (text: String)
        ensures
            text@ == self.message_text(),
    {
        match self {
            CounterError::InvalidFormat => "Invalid counter format".to_owned(),
            CounterError::OutOfRange => "Counter value out of range".to_owned(),
        }
    }
}

/// The counter that a text holds: the number behind its first `=`. White
/// space around the text and `)` behind the number are passed over.
pub open spec fn counter_in(contents: Seq<char>) -> Option<int> {
    match split_at_first(trimmed(contents), seq!['=']) {
        Some((_, behind)) => number_within(
            without_trailing(behind, ')'),
            i64::MIN as int,
            i64::MAX as int,
        ),
        None => None,
    }
}

/// The identifier that follows the counter of a text, and the text of the
/// counter advanced to it.
pub open spec fn next_id_of(contents: Seq<char>) -> Result<(usize, Seq<char>), CounterError> {
    match counter_in(contents) {
        None => Err(CounterError::InvalidFormat),
        Some(counter) => if 0 <= counter + 1 <= usize::MAX && counter < i64::MAX {
            Ok(((counter + 1) as usize, meta_text(counter + 1)))
        } else {
            Err(CounterError::OutOfRange)
        },
    }
}

/// The model of an identifier with the new text of the counter.
pub open spec fn next_id_view(r: Result<(usize, String), CounterError>) -> Result<
    (usize, Seq<char>),
    CounterError,
> {
    match r {
        Ok((id, text)) => Ok((id, text@)),
        Err(e) => Err(e),
    }
}

/// Advances the counter of identifiers: from the text of the counter, the
/// next identifier and the text to keep in its place.
pub fn next_id(contents: &str) -> (r: Result<(usize, String), CounterError>)
    ensures
        next_id_view(r) == next_id_of(contents@),
{
    let chars = to_chars(contents);
    let equals: [char; 1] = ['='];
    assert(equals@ =~= seq!['=']);
    let behind = match split_once(trim(chars.as_slice()), equals.as_slice()) {
        Some((_, behind)) => behind,
        None => {
            return Err(CounterError::InvalidFormat);
        },
    };
    let counter = match parse_i64(trim_end_matches(behind, ')')) {
        Some(counter) => counter,
        None => {
            return Err(CounterError::InvalidFormat);
        },
    };
    if counter < 0 - 1 || counter == i64::MAX || counter as i128 + 1 > usize::MAX as i128 {
        return Err(CounterError::OutOfRange);
    }
    let next = counter + 1;
    Ok((next as usize, base_meta(next)))
}

/// The fields of a note that are read from its lines.
pub ghost struct NoteFields {
    pub title: Seq<char>,
    pub description: Seq<char>,
    pub created_on: u64,
}

/// What stands behind the first `marker` of a line, without the white space
/// around it.
pub open spec fn field_behind(line: Seq<char>, marker: Seq<char>) -> Seq<char> {
    match split_at_first(line, marker) {
        Some((_, behind)) => trimmed(behind),
        None => Seq::empty(),
    }
}

/// The number that a text writes, or zero where it writes none that fits.
pub open spec fn date_in(text: Seq<char>) -> u64 {
    match number_within(text, 0, u64::MAX as int) {
        Some(n) => n as u64,
        None => 0,
    }
}

/// The fields after one more line: a line with `.title:` gives the title,
/// else one with `.description:` the description, else one with `.date:` the
/// date; any other line gives nothing.
pub open spec fn read_line(fields: NoteFields, raw: Seq<char>) -> NoteFields {
    let line = trimmed(raw);
    if has(line, ".title:"@) {
        NoteFields { title: field_behind(line, ".title:"@), ..fields }
    } else if has(line, ".description:"@) {
        NoteFields { description: field_behind(line, ".description:"@), ..fields }
    } else if has(line, ".date:"@) {
        NoteFields { created_on: date_in(field_behind(line, ".date:"@)), ..fields }
    } else {
        fields
    }
}

/// The fields that lines give: of several lines for one field the last
/// decides.
pub open spec fn read_lines(lines: Seq<Seq<char>>) -> NoteFields
    decreases lines.len(),
{
    if lines.len() == 0 {
        NoteFields { title: Seq::empty(), description: Seq::empty(), created_on: 0 }
    } else {
        read_line(read_lines(lines.drop_last()), lines.last())
    }
}

/// The note that a chunk of text holds: its fields from its lines; it is
/// inactive where its first line says so; without a title it is refused.
pub open spec fn note_in(chunk: Seq<char>, id: usize) -> Result<NoteView, Seq<char>> {
    let lines = lines_of(chunk);
    let fields = read_lines(lines);
    if fields.title.len() == 0 {
        Err("Note "@ + decimal_text(id as nat) + " missing title"@)
    } else {
        Ok(
            NoteView {
                id,
                title: fields.title,
                description: fields.description,
                created_on: fields.created_on,
                active: !(lines.len() > 0 && has(lines[0], "inactive"@)),
            },
        )
    }
}

/// The model of a note that was read, or of the reason why none was.
pub open spec fn parsed_note_view(r: Result<Funknote, String>) -> Result<NoteView, Seq<char>> {
    match r {
        Ok(note) => Ok(note_view(note)),
        Err(reason) => Err(reason@),
    }
}

/// What stands behind the first `marker` of a line, without the white space
/// around it.
fn read_field<'a>(line: &'a [char], marker: &[char]) -> (field: &'a [char])
    requires
        has(line@, marker@),
    ensures
        field@ == field_behind(line@, marker@),
{
    match split_once(line, marker) {
        Some((_, behind)) => trim(behind),
        None => slice_subrange(line, 0, 0),
    }
}

/// Reads the note that a chunk of characters holds.
fn parse_note_chars(chunk: &[char], id: usize) -> (r: Result<Funknote, String>)
    ensures
        parsed_note_view(r) == note_in(chunk@, id),
        r matches Ok(note) ==> note.milestone@.len() == 0,
{
    let title_marker = to_chars(".title:");
    let description_marker = to_chars(".description:");
    let date_marker = to_chars(".date:");
    let all = lines(chunk);
    let mut title = String::new();
    let mut description = String::new();
    let mut created_on: u64 = 0;
    let mut active = true;
    if all.len() > 0 {
        assert(slice_views(all@)[0] == all@[0]@);
        if contains(all[0], to_chars("inactive").as_slice()) {
            active = false;
        }
    }
    let mut i: usize = 0;
    assert(slice_views(all@).take(0) =~= Seq::<Seq<char>>::empty());
    while i < all.len()
        invariant
            i <= all.len(),
            title_marker@ == ".title:"@,
            description_marker@ == ".description:"@,
            date_marker@ == ".date:"@,
            read_lines(slice_views(all@).take(i as int)) == (NoteFields {
                title: title@,
                description: description@,
                created_on,
            }),
        decreases all.len() - i,
    {
        let ghost seen = slice_views(all@).take(i as int);
        let ghost more = slice_views(all@).take(i as int + 1);
        assert(more.drop_last() =~= seen);
        assert(more.last() == all@[i as int]@);
        let line = trim(all[i]);
        if contains(line, title_marker.as_slice()) {
            title = text_of(read_field(line, title_marker.as_slice()));
        } else if contains(line, description_marker.as_slice()) {
            description = text_of(read_field(line, description_marker.as_slice()));
        } else if contains(line, date_marker.as_slice()) {
            created_on = match parse_u64(read_field(line, date_marker.as_slice())) {
                Some(n) => n,
                None => 0,
            };
        }
        i += 1;
    }
    assert(slice_views(all@).take(all@.len() as int) =~= slice_views(all@));
    if title.as_str().unicode_len() == 0 {
        let mut reason = "Note ".to_owned();
        reason.append(decimal(id as u128).as_str());
        reason.append(" missing title");
        return Err(reason);
    }
    Ok(Funknote { id, title, description, created_on, milestone: Vec::new(), active })
}

/// Reads the note with the identifier `id` from the chunk of text that holds
/// it.
pub fn parse_note_chunk(chunk: &str, id: usize) -> (r: Result<Funknote, String>)
    ensures
        parsed_note_view(r) == note_in(chunk@, id),
        r matches Ok(note) ==> note.milestone@.len() == 0,
{
    let chars = to_chars(chunk);
    parse_note_chars(chars.as_slice(), id)
}

/// What stands in front of the notes of a file: each note begins with it.
pub open spec fn note_mark() -> Seq<char> {
    "(note.id"@
}

/// The first of the lines that holds `.title:`.
pub open spec fn title_line(lines: Seq<Seq<char>>) -> Option<Seq<char>>
    decreases lines.len(),
{
    if lines.len() == 0 {
        None
    } else if has(lines[0], ".title:"@) {
        Some(lines[0])
    } else {
        title_line(lines.drop_first())
    }
}

/// What stands before the first `.` of a line; the whole line if it has none.
pub open spec fn before_dot(line: Seq<char>) -> Seq<char> {
    match split_at_first(line, seq!['.']) {
        Some((before, _)) => before,
        None => line,
    }
}

/// The identifier of the note that a chunk holds: the number before the first
/// `.` of its title line.
pub open spec fn chunk_id(chunk: Seq<char>) -> Option<usize> {
    match title_line(lines_of(chunk)) {
        Some(line) => match number_within(trimmed(before_dot(line)), 0, usize::MAX as int) {
            Some(n) => Some(n as usize),
            None => None,
        },
        None => None,
    }
}

/// What reading a file of notes comes to: the notes that could be read, in
/// the order of the file, and a warning for each that could not.
pub ghost struct Listing {
    pub notes: Seq<NoteView>,
    pub warnings: Seq<Seq<char>>,
}

/// The listing after one more chunk: a chunk without identifier is passed
/// over; one with an identifier gives its note, or a warning where the note
/// is refused.
pub open spec fn read_chunk(listing: Listing, chunk: Seq<char>) -> Listing {
    match chunk_id(chunk) {
        None => listing,
        Some(id) => match note_in(chunk, id) {
            Ok(note) => Listing { notes: listing.notes.push(note), ..listing },
            Err(reason) => Listing {
                warnings: listing.warnings.push("Warning: Failed to parse note: "@ + reason),
                ..listing
            },
        },
    }
}

/// The listing that chunks give.
pub open spec fn read_chunks(chunks: Seq<Seq<char>>) -> Listing
    decreases chunks.len(),
{
    if chunks.len() == 0 {
        Listing { notes: Seq::empty(), warnings: Seq::empty() }
    } else {
        read_chunk(read_chunks(chunks.drop_last()), chunks.last())
    }
}

/// The listing of a file of notes: of the chunks that begin with the mark of
/// a note; what stands before the first mark is passed over.
pub open spec fn notes_in(contents: Seq<char>) -> Listing {
    read_chunks(pieces_of(contents, note_mark()).drop_first())
}

/// The models of a sequence of notes.
pub open spec fn note_views(notes: Seq<Funknote>) -> Seq<NoteView> {
    notes.map_values(|n: Funknote| note_view(n))
}

/// The identifier of the note that a chunk holds.
fn read_chunk_id(chunk: &[char]) -> (id: Option<usize>)
    ensures
        id == chunk_id(chunk@),
{
    let title_marker = to_chars(".title:");
    let dot: [char; 1] = ['.'];
    let all = lines(chunk);
    let mut i: usize = 0;
    assert(slice_views(all@).skip(0) =~= slice_views(all@));
    while i < all.len()
        invariant
            i <= all.len(),
            title_marker@ == ".title:"@,
            dot@ == seq!['.'],
            slice_views(all@) == lines_of(chunk@),
            title_line(slice_views(all@)) == title_line(slice_views(all@).skip(i as int)),
        decreases all.len() - i,
    {
        let ghost open = slice_views(all@).skip(i as int);
        assert(open[0] == all@[i as int]@);
        assert(open.drop_first() =~= slice_views(all@).skip(i as int + 1));
        if contains(all[i], title_marker.as_slice()) {
            let before = match split_once(all[i], dot.as_slice()) {
                Some((before, _)) => before,
                None => all[i],
            };
            return parse_usize(trim(before));
        }
        i += 1;
    }
    None
}

/// Reads the notes of a file from its contents. Returns the notes that could
/// be read, in the order of the file, and a warning for each note that was
/// refused.
pub fn parse_notes(contents: &str) -> (r: (Vec<Funknote>, Vec<String>))
    ensures
        note_views(r.0@) == notes_in(contents@).notes,
        texts(r.1@) == notes_in(contents@).warnings,
{
    let chars = to_chars(contents);
    let mark = to_chars("(note.id");
    let chunks = split(chars.as_slice(), mark.as_slice());
    let mut notes: Vec<Funknote> = Vec::new();
    let mut warnings: Vec<String> = Vec::new();
    let ghost wanted = slice_views(chunks@).drop_first();
    let mut i: usize = 1;
    assert(wanted.take(0) =~= Seq::<Seq<char>>::empty());
    assert(note_views(notes@) =~= Seq::<NoteView>::empty());
    assert(texts(warnings@) =~= Seq::<Seq<char>>::empty());
    while i < chunks.len()
        invariant
            1 <= i,
            chunks@.len() >= 1 ==> i <= chunks@.len(),
            wanted == slice_views(chunks@).drop_first(),
            read_chunks(wanted.take(i - 1)) == (Listing {
                notes: note_views(notes@),
                warnings: texts(warnings@),
            }),
        decreases chunks.len() - i,
    {
        let ghost seen = wanted.take(i - 1);
        let ghost more = wanted.take(i as int);
        assert(more.drop_last() =~= seen);
        assert(more.last() == chunks@[i as int]@);
        let ghost old_notes = note_views(notes@);
        let ghost old_warnings = texts(warnings@);
        match read_chunk_id(chunks[i]) {
            Some(id) => match parse_note_chars(chunks[i], id) {
                Ok(note) => {
                    notes.push(note);
                    assert(note_views(notes@) =~= old_notes.push(note_view(note)));
                },
                Err(reason) => {
                    let mut warning = "Warning: Failed to parse note: ".to_owned();
                    warning.append(reason.as_str());
                    warnings.push(warning);
                    assert(texts(warnings@) =~= old_warnings.push(warning@));
                },
            },
            None => {},
        }
        i += 1;
    }
    proof {
        if chunks@.len() >= 1 {
            assert(wanted.take(i - 1) =~= wanted);
        } else {
            assert(wanted =~= Seq::<Seq<char>>::empty());
        }
    }
    (notes, warnings)
}

} // verus!
