//! The wire grammar, stated as specification functions.
//!
//! A document is a sequence of rows; a row is a sequence of fields
//! separated by `|` and ended by `\n`, `\r\n`, `\r` or the end of the
//! input; a field is either unquoted text or a `"`-wrapped body in
//! which `\` introduces a two-character escape. The functions here
//! define, character by character, what the reader decodes and what
//! the writer emits; the executable code in [`crate::reader`] and
//! [`crate::writer`] is specified against them, and [`crate::laws`]
//! proves that they are inverses.

use vstd::prelude::*;

verus! {

/// Why a scan of the input failed. Every failure is fatal for the
/// whole stream: the reader does not resynchronise.
#[derive(Clone, Copy, Debug, PartialEq, Eq)]
pub enum ParseError {
    /// A `"` opened a quoted field, and the field reached its
    /// delimiter, terminator or the end of the input before a `"`
    /// closed it.
    UnterminatedQuote,
    /// A `\` was followed by a character outside the escapable set
    /// (`Some` holds it), or stood last in the input (`None`).
    InvalidEscapeSequence(Option<char>),
    /// An unescaped `"` stood where it could neither open nor close
    /// a quoted field.
    UnescapedQuoteInField,
}

/// How a field ended on the wire.
pub enum FieldEnd {
    /// A `|` delimiter: more fields follow on the same row.
    Pipe,
    /// A line terminator (`\n`, `\r\n` or `\r`): the row is complete.
    Line,
    /// The end of the input.
    Eos,
}

/// The characters that may follow a `\` in an escape sequence; each
/// such pair decodes to the second character alone.
pub open spec fn is_escapable(c: char) -> bool {
    c == '\n' || c == '\r' || c == '|' || c == '\\' || c == '\'' || c == '"'
}

/// Scans one field of `s` starting at `pos`, with `acc` the value
/// decoded so far, `quoted` whether a `"` has opened the field and
/// `closed` whether a matching `"` has closed it again.
///
/// On success the result carries the decoded value, the position just
/// past the delimiter or terminator, and how the field ended. Leading
/// spaces of an unquoted field are discarded; inside quotes every
/// character is literal except escape sequences; a `\r` terminator
/// absorbs a directly following `\n`.
pub open spec fn scan_field(
    s: Seq<char>,
    pos: int,
    acc: Seq<char>,
    quoted: bool,
    closed: bool,
) -> Result<(Seq<char>, int, FieldEnd), ParseError>
    decreases s.len() - pos,
{
    if pos < 0 || pos >= s.len() {
        if quoted && !closed {
            Err(ParseError::UnterminatedQuote)
        } else {
            Ok((acc, s.len() as int, FieldEnd::Eos))
        }
    } else {
        let c = s[pos];
        if c == '|' {
            if quoted && !closed {
                Err(ParseError::UnterminatedQuote)
            } else {
                Ok((acc, pos + 1, FieldEnd::Pipe))
            }
        } else if c == '\n' {
            if quoted && !closed {
                Err(ParseError::UnterminatedQuote)
            } else {
                Ok((acc, pos + 1, FieldEnd::Line))
            }
        } else if c == '\r' {
            if quoted && !closed {
                Err(ParseError::UnterminatedQuote)
            } else if pos + 1 < s.len() && s[pos + 1] == '\n' {
                Ok((acc, pos + 2, FieldEnd::Line))
            } else {
                Ok((acc, pos + 1, FieldEnd::Line))
            }
        } else if c == ' ' {
            if acc.len() == 0 && !quoted {
                scan_field(s, pos + 1, acc, quoted, closed)
            } else {
                scan_field(s, pos + 1, acc.push(' '), quoted, closed)
            }
        } else if c == '"' {
            if acc.len() == 0 && !quoted {
                scan_field(s, pos + 1, acc, true, false)
            } else if quoted && !closed {
                scan_field(s, pos + 1, acc, quoted, true)
            } else {
                Err(ParseError::UnescapedQuoteInField)
            }
        } else if c == '\\' {
            if pos + 1 >= s.len() {
                Err(ParseError::InvalidEscapeSequence(None))
            } else if is_escapable(s[pos + 1]) {
                scan_field(s, pos + 2, acc.push(s[pos + 1]), quoted, closed)
            } else {
                Err(ParseError::InvalidEscapeSequence(Some(s[pos + 1])))
            }
        } else {
            scan_field(s, pos + 1, acc.push(c), quoted, closed)
        }
    }
}

/// A successful field scan never moves backwards, never runs past the
/// input, consumes at least the delimiter or terminator it ends on,
/// and ends at the very end of the input exactly when it reports
/// [`FieldEnd::Eos`].
pub proof fn lemma_scan_field_advances(
    s: Seq<char>,
    pos: int,
    acc: Seq<char>,
    quoted: bool,
    closed: bool,
)
    ensures
        match scan_field(s, pos, acc, quoted, closed) {
            Ok((value, next, end)) => {
                &&& next <= s.len()
                &&& (end is Pipe ==> pos < next)
                &&& (end is Line ==> pos < next)
                &&& (end is Eos ==> next == s.len())
            },
            Err(_) => true,
        },
    decreases s.len() - pos,
{
    if 0 <= pos < s.len() {
        let c = s[pos];
        if c == '|' || c == '\n' || c == '\r' {
        } else if c == ' ' {
            if acc.len() == 0 && !quoted {
                lemma_scan_field_advances(s, pos + 1, acc, quoted, closed);
            } else {
                lemma_scan_field_advances(s, pos + 1, acc.push(' '), quoted, closed);
            }
        } else if c == '"' {
            if acc.len() == 0 && !quoted {
                lemma_scan_field_advances(s, pos + 1, acc, true, false);
            } else if quoted && !closed {
                lemma_scan_field_advances(s, pos + 1, acc, quoted, true);
            }
        } else if c == '\\' {
            if pos + 1 < s.len() && is_escapable(s[pos + 1]) {
                lemma_scan_field_advances(s, pos + 2, acc.push(s[pos + 1]), quoted, closed);
            }
        } else {
            lemma_scan_field_advances(s, pos + 1, acc.push(c), quoted, closed);
        }
    }
}

/// Scans the fields of one row of `s` starting at `pos`, with `acc`
/// the fields decoded so far. On success the result carries the
/// row's fields, the position just past its terminator, and whether
/// the row was ended by the end of the input rather than by a line
/// terminator.
pub open spec fn scan_row(
    s: Seq<char>,
    pos: int,
    acc: Seq<Seq<char>>,
) -> Result<(Seq<Seq<char>>, int, bool), ParseError>
    decreases s.len() - pos,
    via scan_row_decreases
{
    match scan_field(s, pos, Seq::empty(), false, false) {
        Err(e) => Err(e),
        Ok((value, next, end)) => {
            let values = acc.push(value);
            match end {
                FieldEnd::Pipe => scan_row(s, next, values),
                FieldEnd::Line => Ok((values, next, false)),
                FieldEnd::Eos => Ok((values, next, true)),
            }
        },
    }
}

#[via_fn]
proof fn scan_row_decreases(s: Seq<char>, pos: int, acc: Seq<Seq<char>>) {
    lemma_scan_field_advances(s, pos, Seq::empty(), false, false);
}

/// A successful row scan stays within the input, reports the end of
/// the input exactly when it reaches it, and holds the fields scanned
/// so far as a prefix of its result.
pub proof fn lemma_scan_row_advances(s: Seq<char>, pos: int, acc: Seq<Seq<char>>)
    ensures
        match scan_row(s, pos, acc) {
            Ok((values, next, at_eos)) => {
                &&& next <= s.len()
                &&& (!at_eos ==> pos < next)
                &&& (at_eos ==> next == s.len())
                &&& values.len() > acc.len()
            },
            Err(_) => true,
        },
    decreases s.len() - pos,
{
    lemma_scan_field_advances(s, pos, Seq::empty(), false, false);
    match scan_field(s, pos, Seq::empty(), false, false) {
        Err(_) => {},
        Ok((value, next, end)) => {
            if end is Pipe {
                lemma_scan_row_advances(s, next, acc.push(value));
            }
        },
    }
}

/// Whether a completed line is suppressed rather than handed out as a
/// row: a line with no fields, or whose only field is empty. Blank
/// lines and the virtual line after a final terminator thus yield no
/// row; this also means that a one-column row with an empty value
/// cannot survive a round trip.
pub open spec fn suppressed(values: Seq<Seq<char>>) -> bool {
    values.len() == 0 || (values.len() == 1 && values[0].len() == 0)
}

/// What one `get_next_row` call decodes from `s` at `pos`:
/// `Ok(Some((values, next)))` a row and the position after it,
/// `Ok(None)` the end of the sequence of rows, `Err` a fatal error.
/// Suppressed lines are skipped.
pub open spec fn next_row(s: Seq<char>, pos: int) -> Result<
    Option<(Seq<Seq<char>>, int)>,
    ParseError,
>
    decreases s.len() - pos,
    via next_row_decreases
{
    match scan_row(s, pos, Seq::empty()) {
        Err(e) => Err(e),
        Ok((values, next, at_eos)) => {
            if suppressed(values) {
                if at_eos {
                    Ok(None)
                } else {
                    next_row(s, next)
                }
            } else {
                Ok(Some((values, next)))
            }
        },
    }
}

#[via_fn]
proof fn next_row_decreases(s: Seq<char>, pos: int) {
    lemma_scan_row_advances(s, pos, Seq::empty());
}

/// A decoded row always advances the position and stays within the
/// input, and from the end of the input no row is decoded.
pub proof fn lemma_next_row_advances(s: Seq<char>, pos: int)
    ensures
        match next_row(s, pos) {
            Ok(Some((values, next))) => pos < next <= s.len() && !suppressed(values),
            _ => true,
        },
        pos >= s.len() ==> next_row(s, pos) == Ok::<Option<(Seq<Seq<char>>, int)>, ParseError>(
            None,
        ),
    decreases s.len() - pos,
{
    lemma_scan_row_advances(s, pos, Seq::empty());
    match scan_row(s, pos, Seq::empty()) {
        Err(_) => {},
        Ok((values, next, at_eos)) => {
            if suppressed(values) && !at_eos {
                lemma_next_row_advances(s, next);
            }
        },
    }
}

/// The full decoding of `s` from `pos` on: the sequence of all rows
/// that repeated `get_next_row` calls yield, or the error on which
/// they fail.
pub open spec fn decode_all(s: Seq<char>, pos: int) -> Result<Seq<Seq<Seq<char>>>, ParseError>
    decreases s.len() - pos,
    via decode_all_decreases
{
    match next_row(s, pos) {
        Err(e) => Err(e),
        Ok(None) => Ok(Seq::empty()),
        Ok(Some((values, next))) => match decode_all(s, next) {
            Err(e) => Err(e),
            Ok(rest) => Ok(seq![values] + rest),
        },
    }
}

#[via_fn]
proof fn decode_all_decreases(s: Seq<char>, pos: int) {
    lemma_next_row_advances(s, pos);
}

/// What the writer emits for one character of a raw field value: the
/// five reserved characters gain a `\`, every other character stands
/// for itself. A single quote needs no escape on the way out, though
/// the reader accepts `\'` on the way in.
pub open spec fn escape_char(c: char) -> Seq<char> {
    if c == '\\' || c == '|' || c == '\n' || c == '\r' || c == '"' {
        seq!['\\', c]
    } else {
        seq![c]
    }
}

/// The escaped body of a raw field value from index `i` on.
pub open spec fn escape_from(s: Seq<char>, i: int) -> Seq<char>
    decreases s.len() - i,
{
    if i < 0 || i >= s.len() {
        Seq::empty()
    } else {
        escape_char(s[i]) + escape_from(s, i + 1)
    }
}

/// The wire form of one raw field value: the escaped body wrapped in
/// a leading and a trailing `"`.
pub open spec fn escape_field(s: Seq<char>) -> Seq<char> {
    seq!['"'] + escape_from(s, 0) + seq!['"']
}

/// The wire form of the fields of one row from index `j` on: each
/// field escaped, `|` between fields and never after the last.
pub open spec fn encode_fields_from(values: Seq<Seq<char>>, j: int) -> Seq<char>
    decreases values.len() - j,
{
    if j < 0 || j >= values.len() {
        Seq::empty()
    } else if j == values.len() - 1 {
        escape_field(values[j])
    } else {
        escape_field(values[j]) + seq!['|'] + encode_fields_from(values, j + 1)
    }
}

/// The wire form of one row: its fields followed by a `\n` terminator.
pub open spec fn encode_row(values: Seq<Seq<char>>) -> Seq<char> {
    encode_fields_from(values, 0) + seq!['\n']
}

/// The wire form of a sequence of rows from index `i` on.
pub open spec fn encode_rows_from(rows: Seq<Seq<Seq<char>>>, i: int) -> Seq<char>
    decreases rows.len() - i,
{
    if i < 0 || i >= rows.len() {
        Seq::empty()
    } else {
        encode_row(rows[i]) + encode_rows_from(rows, i + 1)
    }
}

/// The wire form of a sequence of rows.
pub open spec fn encode_rows(rows: Seq<Seq<Seq<char>>>) -> Seq<char> {
    encode_rows_from(rows, 0)
}

/// A row the writer can emit and the reader will hand back: it has at
/// least one field and is not a lone empty field, which the reader
/// would suppress as a blank line.
pub open spec fn row_emittable(values: Seq<Seq<char>>) -> bool {
    values.len() >= 1 && !(values.len() == 1 && values[0].len() == 0)
}

} // verus!
