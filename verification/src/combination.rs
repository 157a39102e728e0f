//! Combination records and the line-oriented text format they are read from.
//!
//! A record line holds five fields separated by `;` (description, distance,
//! defense, faint, body) and may hold a sixth, a link. Blank lines and lines
//! that start with `#` carry no record.

use std::rc::Rc;
use vstd::prelude::*;
use vstd::string::*;

use crate::text::{
    chars_of, debug_quote, debug_quoted, eq_ignore_ascii_case, lemma_eq_ignore_ascii_case_carries,
    lemma_trim_ignores_case, range_eq_ignore_ascii_case, split, split_ranges, trim, trim_range,
};

verus! {

/// The distance a combination is thrown from.
#[derive(Debug, Clone, Copy, PartialEq, Eq, Structural)]
pub enum Distance {
    Short,
    Long,
}

/// Whether a combination contains a defensive move.
#[derive(Debug, Clone, Copy, PartialEq, Eq, Structural)]
pub enum Defense {
    Yes,
    No,
}

/// Whether a combination contains a feint.
#[derive(Debug, Clone, Copy, PartialEq, Eq, Structural)]
pub enum Faint {
    Yes,
    No,
}

/// Whether a combination contains a punch to the body.
#[derive(Debug, Clone, Copy, PartialEq, Eq, Structural)]
pub enum Body {
    Yes,
    No,
}

/// One named sequence of moves with its facets.
#[derive(Debug, Clone, PartialEq, Eq)]
pub struct Combination {
    pub description: String,
    pub distance: Distance,
    pub defense: Defense,
    pub faint: Faint,
    pub body: Body,
    pub url: Option<String>,
}

/// The mathematical content of a `Combination`.
pub struct Record {
    pub description: Seq<char>,
    pub distance: Distance,
    pub defense: Defense,
    pub faint: Faint,
    pub body: Body,
    pub url: Option<Seq<char>>,
}

impl View for Combination {
    type V = Record;

    open spec fn view(&self) -> Record {
        Record {
            description: self.description@,
            distance: self.distance,
            defense: self.defense,
            faint: self.faint,
            body: self.body,
            url: match self.url {
                Some(link) => Some(link@),
                None => None,
            },
        }
    }
}

/// The error type of `std::io`, carried through as an opaque value.
#[verifier::external_type_specification]
#[verifier::external_body]
pub struct ExIoError(std::io::Error);

/// Why a data file could not be turned into records.
#[derive(Debug)]
pub enum CombinationError {
    /// Reading the file failed.
    IoError(std::io::Error),
    /// A line is malformed; the message quotes it.
    ParseError(String),
}

/// The field separator of a record line.
pub const DELIMITER: char = ';';

/// The character that starts a comment line.
pub const COMMENT: char = '#';

/// The line break that separates the lines of a data file.
pub const LINE_BREAK: char = '\n';

/// The number of fields that every record line must hold.
pub const FIELD_COUNT: usize = 5;

/// A record line holds the required fields and at most one more, the link.
pub open spec fn field_count_accepted(n: nat) -> bool {
    n == FIELD_COUNT || n == FIELD_COUNT + 1
}

/// The distance that a field spells, if it spells one.
pub open spec fn distance_of(field: Seq<char>) -> Option<Distance> {
    if eq_ignore_ascii_case(trim(field), "long"@) {
        Some(Distance::Long)
    } else if eq_ignore_ascii_case(trim(field), "short"@) {
        Some(Distance::Short)
    } else {
        None
    }
}

/// `yes` where the field spells "yes", `no` where it spells "no", in any
/// case and with any whitespace around the word.
pub open spec fn yes_no<T>(field: Seq<char>, yes: T, no: T) -> Option<T> {
    if eq_ignore_ascii_case(trim(field), "yes"@) {
        Some(yes)
    } else if eq_ignore_ascii_case(trim(field), "no"@) {
        Some(no)
    } else {
        None
    }
}

/// The link that the fields of a line carry: the trimmed sixth field, unless
/// it is missing or empty.
pub open spec fn link_of(fields: Seq<Seq<char>>) -> Option<Seq<char>> {
    if fields.len() > FIELD_COUNT && fields[FIELD_COUNT as int].len() > 0 {
        Some(trim(fields[FIELD_COUNT as int]))
    } else {
        None
    }
}

/// The message for a line with the wrong number of fields, given the line as
/// quoted text.
pub open spec fn count_text(quoted_line: Seq<char>) -> Seq<char> {
    "Expect five elements delimited by ; in "@ + quoted_line
}

/// The message for a field that spells none of the words allowed for the
/// facet `what`, given the field and the line as quoted text.
pub open spec fn unknown_text(what: Seq<char>, quoted_field: Seq<char>, quoted_line: Seq<char>) -> Seq<
    char,
> {
    "Unknown "@ + what + " "@ + quoted_field + " in "@ + quoted_line
}

/// What a line of the data file means: its record, or the message that says
/// what is wrong with it. The fields are checked from left to right and the
/// first fault is the one reported. The distance is echoed trimmed, the other
/// facets as they stand in the line.
pub open spec fn parse_line(line: Seq<char>) -> Result<Record, Seq<char>> {
    let fields = split(line, DELIMITER);
    if !field_count_accepted(fields.len()) {
        Err(count_text(debug_quoted(line)))
    } else {
        match (
            distance_of(fields[1]),
            yes_no(fields[2], Defense::Yes, Defense::No),
            yes_no(fields[3], Faint::Yes, Faint::No),
            yes_no(fields[4], Body::Yes, Body::No),
        ) {
            (None, _, _, _) => Err(
                unknown_text("distance"@, debug_quoted(trim(fields[1])), debug_quoted(line)),
            ),
            (Some(_), None, _, _) => Err(
                unknown_text("defense"@, debug_quoted(fields[2]), debug_quoted(line)),
            ),
            (Some(_), Some(_), None, _) => Err(
                unknown_text("faint"@, debug_quoted(fields[3]), debug_quoted(line)),
            ),
            (Some(_), Some(_), Some(_), None) => Err(
                unknown_text("body"@, debug_quoted(fields[4]), debug_quoted(line)),
            ),
            (Some(distance), Some(defense), Some(faint), Some(body)) => Ok(
                Record {
                    description: trim(fields[0]),
                    distance,
                    defense,
                    faint,
                    body,
                    url: link_of(fields),
                },
            ),
        }
    }
}

/// A line that carries no record: blank, or a comment.
pub open spec fn is_skipped(line: Seq<char>) -> bool {
    trim(line).len() == 0 || trim(line).first() == COMMENT
}

/// The records of a sequence of lines, in the order of the lines, or the
/// message of the first line that is at fault. Each line is trimmed before
/// it is read.
pub open spec fn parse_lines(lines: Seq<Seq<char>>) -> Result<Seq<Record>, Seq<char>>
    decreases lines.len(),
{
    if lines.len() == 0 {
        Ok(Seq::<Record>::empty())
    } else {
        match parse_lines(lines.drop_last()) {
            Err(message) => Err(message),
            Ok(records) => if is_skipped(lines.last()) {
                Ok(records)
            } else {
                match parse_line(trim(lines.last())) {
                    Ok(record) => Ok(records.push(record)),
                    Err(message) => Err(message),
                }
            },
        }
    }
}

/// What the text of a data file means.
pub open spec fn parse_text(text: Seq<char>) -> Result<Seq<Record>, Seq<char>> {
    parse_lines(split(text, LINE_BREAK))
}

/// The mathematical content of a list of records.
pub open spec fn records_of(data: Seq<Rc<Combination>>) -> Seq<Record> {
    data.map_values(|c: Rc<Combination>| c@)
}

/// The text of a `ParseError` with the given message.
pub open spec fn parse_error_text(message: Seq<char>) -> Seq<char> {
    "Parse error: "@ + message
}

/// The text of an `IoError` whose cause reads `cause`.
pub open spec fn io_error_text(cause: Seq<char>) -> Seq<char> {
    "I/O error: "@ + cause
}

/// A fault in a prefix of the lines is the fault of the whole.
proof fn lemma_first_fault_stays(lines: Seq<Seq<char>>, n: int)
    requires
        0 <= n <= lines.len(),
        parse_lines(lines.take(n)) is Err,
    ensures
        parse_lines(lines) == parse_lines(lines.take(n)),
    decreases lines.len() - n,
{
    if n < lines.len() {
        assert(lines.take(n + 1).drop_last() == lines.take(n));
        lemma_first_fault_stays(lines, n + 1);
    } else {
        assert(lines.take(n) == lines);
    }
}

impl Combination {
    /// Puts a record together from its parts.
    pub fn new(
        description: String,
        distance: Distance,
        defense: Defense,
        faint: Faint,
        body: Body,
        url: Option<String>,
    ) -> (c: Combination)
        ensures
            c.description == description,
            c.distance == distance,
            c.defense == defense,
            c.faint == faint,
            c.body == body,
            c.url == url,
    {
        Combination { description, distance, defense, faint, body, url }
    }
}

/// Builds the message for a line with the wrong number of fields.
pub fn count_message(quoted_line: &str) -> (r: String)
    ensures
        r@ == count_text(quoted_line@),
{
    let mut r = String::from_str("Expect five elements delimited by ; in ");
    r.append(quoted_line);
    r
}

/// Builds the message for a field of the facet `what` that spells none of
/// the allowed words.
pub fn unknown_message(what: &str, quoted_field: &str, quoted_line: &str) -> (r: String)
    ensures
        r@ == unknown_text(what@, quoted_field@, quoted_line@),
{
    let mut r = String::from_str("Unknown ");
    r.append(what);
    r.append(" ");
    r.append(quoted_field);
    r.append(" in ");
    r.append(quoted_line);
    r
}

/// Reads a yes/no field and answers with `yes` or `no` accordingly.
pub fn parse_yes_no<T>(field: &str, yes: T, no: T) -> (r: Option<T>)
    ensures
        r == yes_no(field@, yes, no),
{
    let chars = chars_of(field);
    let (from, to) = trim_range(&chars, 0, chars.len());
    assert(chars@.subrange(0, chars.len() as int) == field@);
    if range_eq_ignore_ascii_case(&chars, from, to, "yes") {
        Some(yes)
    } else if range_eq_ignore_ascii_case(&chars, from, to, "no") {
        Some(no)
    } else {
        None
    }
}

/// Reads one record line.
///
/// The line is split on `;`. It must hold five fields, or six where the last
/// is a link; the distance must spell "long" or "short" and the three other
/// facets "yes" or "no", in any case. The result is the record, or a
/// `ParseError` whose message names the first fault and quotes the line.
pub fn parse_combination(line: &str) -> (r: Result<Rc<Combination>, CombinationError>)
    ensures
        match parse_line(line@) {
            Ok(record) => r matches Ok(c) && c@ == record,
            Err(message) => r matches Err(CombinationError::ParseError(m)) && m@ == message,
        },
{
    let chars = chars_of(line);
    let fields = split_ranges(&chars, DELIMITER);
    if fields.len() != FIELD_COUNT && fields.len() != FIELD_COUNT + 1 {
        let quoted_line = debug_quote(line);
        return Err(CombinationError::ParseError(count_message(quoted_line.as_str())));
    }
    let (from, to) = trim_range(&chars, fields[0].0, fields[0].1);
    let description = line.substring_char(from, to).to_owned();

    let (from, to) = trim_range(&chars, fields[1].0, fields[1].1);
    let distance = if range_eq_ignore_ascii_case(&chars, from, to, "long") {
        Distance::Long
    } else if range_eq_ignore_ascii_case(&chars, from, to, "short") {
        Distance::Short
    } else {
        let quoted_field = debug_quote(line.substring_char(from, to));
        let quoted_line = debug_quote(line);
        return Err(
            CombinationError::ParseError(
                unknown_message("distance", quoted_field.as_str(), quoted_line.as_str()),
            ),
        );
    };

    let field = line.substring_char(fields[2].0, fields[2].1);
    let defense = match parse_yes_no(field, Defense::Yes, Defense::No) {
        Some(value) => value,
        None => {
            let quoted_field = debug_quote(field);
            let quoted_line = debug_quote(line);
            return Err(
                CombinationError::ParseError(
                    unknown_message("defense", quoted_field.as_str(), quoted_line.as_str()),
                ),
            );
        },
    };

    let field = line.substring_char(fields[3].0, fields[3].1);
    let faint = match parse_yes_no(field, Faint::Yes, Faint::No) {
        Some(value) => value,
        None => {
            let quoted_field = debug_quote(field);
            let quoted_line = debug_quote(line);
            return Err(
                CombinationError::ParseError(
                    unknown_message("faint", quoted_field.as_str(), quoted_line.as_str()),
                ),
            );
        },
    };

    let field = line.substring_char(fields[4].0, fields[4].1);
    let body = match parse_yes_no(field, Body::Yes, Body::No) {
        Some(value) => value,
        None => {
            let quoted_field = debug_quote(field);
            let quoted_line = debug_quote(line);
            return Err(
                CombinationError::ParseError(
                    unknown_message("body", quoted_field.as_str(), quoted_line.as_str()),
                ),
            );
        },
    };

    let url = if fields.len() > FIELD_COUNT && fields[FIELD_COUNT].0 < fields[FIELD_COUNT].1 {
        let (from, to) = trim_range(&chars, fields[FIELD_COUNT].0, fields[FIELD_COUNT].1);
        Some(line.substring_char(from, to).to_owned())
    } else {
        None
    };
    Ok(Rc::new(Combination::new(description, distance, defense, faint, body, url)))
}

/// Reads the text of a data file: one record per line, blank lines and
/// comment lines left out. The first malformed line ends the reading with
/// its error; there is no partial result.
pub fn parse_data(text: &str) -> (r: Result<Vec<Rc<Combination>>, CombinationError>)
    ensures
        match parse_text(text@) {
            Ok(records) => r matches Ok(data) && records_of(data@) == records,
            Err(message) => r matches Err(CombinationError::ParseError(m)) && m@ == message,
        },
{
    let chars = chars_of(text);
    let lines = split_ranges(&chars, LINE_BREAK);
    let ghost all = split(text@, LINE_BREAK);
    let mut data: Vec<Rc<Combination>> = Vec::new();
    let mut i: usize = 0;
    assert(records_of(data@) == Seq::<Record>::empty());
    while i < lines.len()
        invariant
            chars@ == text@,
            all == split(text@, LINE_BREAK),
            lines.len() == all.len(),
            forall|k: int|
                0 <= k < lines.len() ==> {
                    &&& (#[trigger] lines[k]).0 <= lines[k].1 <= chars.len()
                    &&& chars@.subrange(lines[k].0 as int, lines[k].1 as int) == all[k]
                },
            i <= lines.len(),
            parse_lines(all.take(i as int)) == Ok::<Seq<Record>, Seq<char>>(records_of(data@)),
        decreases lines.len() - i,
    {
        assert(all.take(i + 1).drop_last() == all.take(i as int));
        let (from, to) = trim_range(&chars, lines[i].0, lines[i].1);
        if from < to && chars[from] != COMMENT {
            match parse_combination(text.substring_char(from, to)) {
                Ok(combination) => {
                    assert(records_of(data@.push(combination)) == records_of(data@).push(
                        combination@,
                    ));
                    data.push(combination);
                },
                Err(error) => {
                    proof {
                        lemma_first_fault_stays(all, i + 1);
                    }
                    return Err(error);
                },
            }
        }
        i += 1;
    }
    assert(all.take(i as int) == all);
    Ok(data)
}

/// Formats an I/O error with `{}`, that is with
/// `<std::io::Error as Display>::fmt`. The words come from the operating
/// system, so nothing is claimed of them.
#[verifier::external_body]
fn io_error_cause(error: &std::io::Error) -> String {
    format!("{}", error)
}

/// The text of a `ParseError` with the given message.
pub fn parse_error_message(message: &str) -> (r: String)
    ensures
        r@ == parse_error_text(message@),
{
    let mut r = String::from_str("Parse error: ");
    r.append(message);
    r
}

/// The text of an `IoError`, given what the error itself reads.
pub fn io_error_message(cause: &str) -> (r: String)
    ensures
        r@ == io_error_text(cause@),
{
    let mut r = String::from_str("I/O error: ");
    r.append(cause);
    r
}

impl CombinationError {
    /// The error as text: its kind, then the message or the cause.
    pub fn to_string(&self) -> (r: String)
        ensures
            match self {
                CombinationError::ParseError(message) => r@ == parse_error_text(message@),
                CombinationError::IoError(_) => exists|cause: Seq<char>|
                    r@ == io_error_text(cause),
            },
    {
        match self {
            CombinationError::ParseError(message) => parse_error_message(message.as_str()),
            CombinationError::IoError(error) => {
                let cause = io_error_cause(error);
                io_error_message(cause.as_str())
            },
        }
    }

    /// The I/O error behind this error, if there is one.
    pub fn source(&self) -> (r: Option<&std::io::Error>)
        ensures
            r == match self {
                CombinationError::IoError(error) => Some(error),
                CombinationError::ParseError(_) => None,
            },
    {
        match self {
            CombinationError::IoError(error) => Some(error),
            CombinationError::ParseError(_) => None,
        }
    }
}

impl From<std::io::Error> for CombinationError {
    fn from(error: std::io::Error) -> (r: CombinationError) {
        CombinationError::IoError(error)
    }
}

impl vstd::std_specs::convert::FromSpecImpl<std::io::Error> for CombinationError {
    open spec fn obeys_from_spec() -> bool {
        true
    }

    open spec fn from_spec(error: std::io::Error) -> CombinationError {
        CombinationError::IoError(error)
    }
}

/// The case of the letters of a field does not matter: two fields that are
/// equal up to the case of their ASCII letters spell the same distance and
/// the same answer to a yes/no facet.
pub proof fn lemma_fields_ignore_case<T>(a: Seq<char>, b: Seq<char>, yes: T, no: T)
    requires
        eq_ignore_ascii_case(a, b),
    ensures
        distance_of(a) == distance_of(b),
        yes_no(a, yes, no) == yes_no(b, yes, no),
{
    lemma_trim_ignores_case(a, b);
    lemma_eq_ignore_ascii_case_carries(trim(a), trim(b), "long"@);
    lemma_eq_ignore_ascii_case_carries(trim(a), trim(b), "short"@);
    lemma_eq_ignore_ascii_case_carries(trim(a), trim(b), "yes"@);
    lemma_eq_ignore_ascii_case_carries(trim(a), trim(b), "no"@);
}

} // verus!
