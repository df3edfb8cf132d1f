//! The streaming row reader: scans text in the pipe-delimited quoted
//! format of [`crate::grammar`] and yields one row at a time.

use vstd::prelude::*;
use vstd::string::StrSliceExecFns;
use crate::grammar::{next_row, scan_field, scan_row, suppressed, ParseError};
use crate::grammar::lemma_next_row_advances;
use crate::push_char;

verus! {

/// One decoded record: an ordered list of field values.
pub struct RedshiftRow {
    /// The row's field values, in wire order.
    pub values: Vec<String>,
}

/// What one scan step of the reader yields: a field value, or one of
/// the two markers that close a line or the whole stream.
enum NextItemResult {
    /// The previous field was the last one of its line.
    EndOfLine,
    /// The input is exhausted.
    EndOfStream,
    /// The next field value of the current line.
    Item(String),
}

/// The row a `get_next_row` call is about to yield, given the fields
/// `acc` already scanned on the current line and the reader's two
/// flags. Agrees with [`next_row`] from a fresh line start.
spec fn pending_row(
    s: Seq<char>,
    pos: int,
    acc: Seq<Seq<char>>,
    eol: bool,
    eos: bool,
) -> Result<Option<(Seq<Seq<char>>, int)>, ParseError> {
    if eos {
        if suppressed(acc) {
            Ok(None)
        } else {
            Ok(Some((acc, s.len() as int)))
        }
    } else if eol {
        if suppressed(acc) {
            next_row(s, pos)
        } else {
            Ok(Some((acc, pos)))
        }
    } else {
        match scan_row(s, pos, acc) {
            Err(e) => Err(e),
            Ok((values, next, at_eos)) => {
                if suppressed(values) {
                    if at_eos {
                        Ok(None)
                    } else {
                        next_row(s, next)
                    }
                } else {
                    Ok(Some((values, next)))
                }
            },
        }
    }
}

/// Reader for text in the pipe-delimited quoted format. It owns the
/// whole input and a cursor into it, and hands out rows in order,
/// forward only; after the end of the input it keeps reporting the
/// end, and after a grammar error it keeps reporting that error.
pub struct Reader {
    input: String,
    pos: usize,
    length: usize,
    end_of_line: bool,
    end_of_stream: bool,
    failed: Option<ParseError>,
}

impl Reader {
    /// The input text the reader scans.
    pub closed spec fn input_spec(&self) -> Seq<char> {
        self.input@
    }

    /// The position of the cursor, in characters from the start of
    /// the input.
    pub closed spec fn pos_spec(&self) -> int {
        self.pos as int
    }

    /// The error on which the reader failed, if it has; a failed
    /// reader is poisoned and yields that error forever.
    pub closed spec fn failed_spec(&self) -> Option<ParseError> {
        self.failed
    }

    /// The cursor and the end-of-stream flag agree with the input.
    spec fn inv(&self) -> bool {
        &&& self.length == self.input@.len()
        &&& self.pos <= self.length
        &&& (self.end_of_stream ==> self.pos == self.length)
    }

    /// Well-formedness between public calls: the internal line flag
    /// may only linger once the whole input is consumed.
    pub closed spec fn wf(&self) -> bool {
        &&& self.inv()
        &&& (self.end_of_line ==> self.end_of_stream)
    }

    /// Constructs a reader over the whole of `input`, with the cursor
    /// at its start.
    pub fn new(input: String) -> (r: Reader)
        ensures
            r.wf(),
            r.input_spec() == input@,
            r.pos_spec() == 0,
            r.failed_spec() is None,
    {
        let length = input.as_str().unicode_len();
        Reader {
            input,
            pos: 0,
            length,
            end_of_line: false,
            end_of_stream: false,
            failed: None,
        }
    }

    /// Serves one character of lookahead from the cursor: `None` at
    /// the end of the input (and notes the end), otherwise the
    /// character under the cursor, which `eat` consumes.
    fn get_next_char(&mut self, eat: bool) -> (r: Option<char>)
        requires
            old(self).inv(),
        ensures
            final(self).inv(),
            final(self).input == old(self).input,
            final(self).length == old(self).length,
            final(self).end_of_line == old(self).end_of_line,
            final(self).failed == old(self).failed,
            old(self).pos == old(self).length ==> {
                &&& r is None
                &&& final(self).end_of_stream
                &&& final(self).pos == old(self).pos
            },
            old(self).pos < old(self).length ==> {
                &&& r == Some(old(self).input@[old(self).pos as int])
                &&& final(self).end_of_stream == old(self).end_of_stream
                &&& (if eat {
                    final(self).pos == old(self).pos + 1
                } else {
                    final(self).pos == old(self).pos
                })
            },
    {
        if self.pos >= self.length {
            self.end_of_stream = true;
            return None;
        }
        let c = self.input.as_str().get_char(self.pos);
        if eat {
            self.pos = self.pos + 1;
        }
        Some(c)
    }

    /// Scans the next field of the current line, or reports that the
    /// line or the stream has ended, exactly as
    /// [`scan_field`] describes.
    fn get_next_item(&mut self) -> (r: Result<NextItemResult, ParseError>)
        requires
            old(self).inv(),
        ensures
            final(self).inv(),
            final(self).input == old(self).input,
            final(self).length == old(self).length,
            final(self).failed == old(self).failed,
            old(self).end_of_stream ==> {
                &&& r matches Ok(NextItemResult::EndOfStream)
                &&& *final(self) == *old(self)
            },
            !old(self).end_of_stream && old(self).end_of_line ==> {
                &&& r matches Ok(NextItemResult::EndOfLine)
                &&& final(self).pos == old(self).pos
                &&& !final(self).end_of_line
                &&& !final(self).end_of_stream
            },
            !old(self).end_of_stream && !old(self).end_of_line ==> match scan_field(
                old(self).input@,
                old(self).pos as int,
                Seq::empty(),
                false,
                false,
            ) {
                Err(e) => r == Err::<NextItemResult, ParseError>(e) && !final(self).end_of_line,
                Ok((value, next, end)) => {
                    &&& r matches Ok(NextItemResult::Item(item)) && item@ == value
                    &&& final(self).pos == next
                    &&& final(self).end_of_line == (end is Line)
                    &&& (end is Eos ==> final(self).end_of_stream)
                    &&& (end is Pipe ==> !final(self).end_of_stream)
                },
            },
    {
        if self.end_of_stream {
            return Ok(NextItemResult::EndOfStream);
        }
        if self.end_of_line {
            // the previous item was the last one on its line; start a
            // new line
            self.end_of_line = false;
            return Ok(NextItemResult::EndOfLine);
        }
        let ghost s = self.input@;
        let mut found_quote = false;
        let mut found_closing_quote = false;
        let mut next_item = String::new();
        loop
            invariant
                self.inv(),
                self.input == old(self).input,
                self.length == old(self).length,
                self.failed == old(self).failed,
                !self.end_of_line,
                !self.end_of_stream,
                !old(self).end_of_line,
                !old(self).end_of_stream,
                s == self.input@,
                found_closing_quote ==> found_quote,
                scan_field(s, old(self).pos as int, Seq::empty(), false, false) == scan_field(
                    s,
                    self.pos as int,
                    next_item@,
                    found_quote,
                    found_closing_quote,
                ),
            decreases self.length - self.pos,
        {
            let ghost acc = next_item@;
            let copt = self.get_next_char(true);
            if let Some(c) = copt {
                if c == '|' {
                    // end of the field
                    if found_quote && !found_closing_quote {
                        return Err(ParseError::UnterminatedQuote);
                    }
                    return Ok(NextItemResult::Item(next_item));
                } else if c == '\n' || c == '\r' {
                    if found_quote && !found_closing_quote {
                        return Err(ParseError::UnterminatedQuote);
                    }
                    self.end_of_line = true;
                    if c == '\r' {
                        // a \r\n pair counts as one terminator
                        let peeked = self.get_next_char(false);
                        if let Some(c2) = peeked {
                            if c2 == '\n' {
                                let _ = self.get_next_char(true);
                            }
                        }
                    }
                    return Ok(NextItemResult::Item(next_item));
                } else if c == ' ' {
                    if next_item.as_str().is_empty() && !found_quote {
                        // leading spaces of an unquoted field are
                        // discarded
                    } else {
                        push_char(&mut next_item, ' ');
                        proof {
                            assert(next_item@ == acc.push(' '));
                        }
                    }
                } else if c == '"' {
                    if next_item.as_str().is_empty() && !found_quote {
                        found_quote = true;
                    } else if found_quote && !found_closing_quote {
                        found_closing_quote = true;
                    } else {
                        return Err(ParseError::UnescapedQuoteInField);
                    }
                } else if c == '\\' {
                    // an escape sequence
                    let peeked = self.get_next_char(false);
                    match peeked {
                        None => {
                            return Err(ParseError::InvalidEscapeSequence(None));
                        },
                        Some(c2) => {
                            if c2 == '\n' || c2 == '\r' || c2 == '|' || c2 == '\\' || c2 == '\''
                                || c2 == '"' {
                                let _ = self.get_next_char(true);
                                push_char(&mut next_item, c2);
                                proof {
                                    assert(next_item@ == acc.push(c2));
                                }
                            } else {
                                return Err(ParseError::InvalidEscapeSequence(Some(c2)));
                            }
                        },
                    }
                } else {
                    // a regular character
                    push_char(&mut next_item, c);
                    proof {
                        assert(next_item@ == acc.push(c));
                    }
                }
            } else {
                // end of the stream closes the field
                if found_quote && !found_closing_quote {
                    return Err(ParseError::UnterminatedQuote);
                }
                return Ok(NextItemResult::Item(next_item));
            }
        }
    }

    /// Yields the next row of the input, `Ok(None)` once the input is
    /// exhausted, or the grammar error on which the scan fails —
    /// exactly as [`next_row`] describes. A failure poisons the
    /// reader: every later call returns the same error.
    pub fn get_next_row(&mut self) -> (r: Result<Option<RedshiftRow>, ParseError>)
        requires
            old(self).wf(),
        ensures
            final(self).wf(),
            final(self).input_spec() == old(self).input_spec(),
            match old(self).failed_spec() {
                Some(e) => {
                    &&& r == Err::<Option<RedshiftRow>, ParseError>(e)
                    &&& final(self).failed_spec() == Some(e)
                },
                None => match next_row(old(self).input_spec(), old(self).pos_spec()) {
                    Err(e) => {
                        &&& r == Err::<Option<RedshiftRow>, ParseError>(e)
                        &&& final(self).failed_spec() == Some(e)
                    },
                    Ok(None) => {
                        &&& r matches Ok(None)
                        &&& final(self).pos_spec() == old(self).input_spec().len()
                        &&& final(self).failed_spec() is None
                    },
                    Ok(Some((values, next))) => {
                        &&& r matches Ok(Some(row)) && row.values.deep_view() == values
                        &&& final(self).pos_spec() == next
                        &&& final(self).failed_spec() is None
                    },
                },
            },
    {
        if let Some(e) = self.failed {
            return Err(e);
        }
        let ghost s = self.input@;
        let ghost pos0 = self.pos as int;
        proof {
            if self.end_of_stream {
                lemma_next_row_advances(s, pos0);
            }
        }
        let mut row: Vec<String> = Vec::new();
        proof {
            assert(row.deep_view() =~= Seq::<Seq<char>>::empty());
        }
        loop
            invariant
                self.inv(),
                self.input == old(self).input,
                self.length == old(self).length,
                self.failed is None,
                old(self).failed is None,
                s == self.input@,
                pos0 == old(self).pos as int,
                next_row(s, pos0) == pending_row(
                    s,
                    self.pos as int,
                    row.deep_view(),
                    self.end_of_line,
                    self.end_of_stream,
                ),
            decreases
                    self.length - self.pos,
                    (if self.end_of_stream {
                        0int
                    } else {
                        1int
                    }),
                    (if self.end_of_line {
                        1int
                    } else {
                        0int
                    }),
        {
            let ghost head = *self;
            let ghost acc = row.deep_view();
            let next = self.get_next_item();
            match next {
                Err(e) => {
                    self.failed = Some(e);
                    return Err(e);
                },
                Ok(NextItemResult::Item(item)) => {
                    proof {
                        let step = scan_field(s, head.pos as int, Seq::empty(), false, false);
                        crate::grammar::lemma_scan_field_advances(
                            s,
                            head.pos as int,
                            Seq::empty(),
                            false,
                            false,
                        );
                        match step {
                            Ok((value, next_pos, end)) => {
                                if end is Line && self.end_of_stream {
                                    lemma_next_row_advances(s, next_pos);
                                }
                            },
                            Err(_) => {},
                        }
                    }
                    let ghost prev_view = row@;
                    row.push(item);
                    proof {
                        assert forall|k: int| 0 <= k < row.deep_view().len() implies
                            row.deep_view()[k] == acc.push(item@)[k] by {
                            if k < prev_view.len() {
                                assert(row@[k] == prev_view[k]);
                            }
                        }
                        assert(row.deep_view() =~= acc.push(item@));
                    }
                },
                Ok(NextItemResult::EndOfLine) => {
                    if row.len() == 0 || (row.len() == 1 && row[0].as_str().is_empty()) {
                        proof {
                            assert(suppressed(acc));
                            assert(pending_row(s, self.pos as int, Seq::empty(), false, false)
                                == next_row(s, self.pos as int));
                        }
                        row = Vec::new();
                        proof {
                            assert(row.deep_view() =~= Seq::<Seq<char>>::empty());
                        }
                    } else {
                        proof {
                            assert(!suppressed(acc));
                        }
                        return Ok(Some(RedshiftRow { values: row }));
                    }
                },
                Ok(NextItemResult::EndOfStream) => {
                    if row.len() == 0 || (row.len() == 1 && row[0].as_str().is_empty()) {
                        proof {
                            assert(suppressed(acc));
                        }
                        return Ok(None);
                    }
                    proof {
                        assert(!suppressed(acc));
                    }
                    return Ok(Some(RedshiftRow { values: row }));
                },
            }
        }
    }

    /// Yields the next row, or `None` once the input is exhausted.
    /// It is the iteration form of [`Reader::get_next_row`] for
    /// well-formed input: input on which the scan would fail is ruled
    /// out, since there is no error to return it through.
    pub fn next(&mut self) -> (r: Option<RedshiftRow>)
        requires
            old(self).wf(),
            old(self).failed_spec() is None,
            !(next_row(old(self).input_spec(), old(self).pos_spec()) is Err),
        ensures
            final(self).wf(),
            final(self).input_spec() == old(self).input_spec(),
            final(self).failed_spec() is None,
            match next_row(old(self).input_spec(), old(self).pos_spec()) {
                Ok(None) => r is None && final(self).pos_spec() == old(self).input_spec().len(),
                Ok(Some((values, next))) => {
                    &&& r matches Some(row) && row.values.deep_view() == values
                    &&& final(self).pos_spec() == next
                },
                Err(_) => false,
            },
    {
        let res = self.get_next_row();
        match res {
            Ok(maybe_row) => maybe_row,
            Err(_) => vstd::pervasive::unreached(),
        }
    }
}

} // verus!
