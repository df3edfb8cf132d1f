//! The escaping writer: serialises items, one line each, in the
//! pipe-delimited quoted format of [`crate::grammar`].

use vstd::prelude::*;
use vstd::string::StrSliceExecFns;
use vstd::string::StringExecFns;
use crate::grammar::{
    encode_fields_from, encode_row, encode_rows, encode_rows_from, escape_char, escape_field,
    escape_from,
};
use crate::push_char;

verus! {

/// One column of the output: its name, for the optional header row,
/// and how to project an item to this column's raw value.
pub struct ColumnDefinition<'a, F> {
    /// Column name.
    pub name: &'a str,
    /// Extracts the column's raw value from an item.
    pub extract_column: F,
}

/// Turns a raw column value into its wire form: `\`, `|`, `\n`, `\r`
/// and `"` each gain a leading `\` (the backslash first, so inserted
/// backslashes are not escaped again), and the whole is wrapped in a
/// leading and a trailing `"`.
pub fn escape_column_value(value: String) -> (r: String)
    ensures
        r@ == escape_field(value@),
{
    let mut out = String::new();
    push_char(&mut out, '"');
    let n = value.as_str().unicode_len();
    let mut i: usize = 0;
    while i < n
        invariant
            n == value@.len(),
            i <= n,
            out@ + escape_from(value@, i as int) == seq!['"'] + escape_from(value@, 0),
        decreases n - i,
    {
        let ghost prev = out@;
        let c = value.as_str().get_char(i);
        if c == '\\' || c == '|' || c == '\n' || c == '\r' || c == '"' {
            push_char(&mut out, '\\');
            push_char(&mut out, c);
            proof {
                assert(out@ =~= prev + escape_char(value@[i as int]));
            }
        } else {
            push_char(&mut out, c);
            proof {
                assert(out@ =~= prev + escape_char(value@[i as int]));
            }
        }
        proof {
            assert(out@ + escape_from(value@, i + 1) =~= prev + escape_from(value@, i as int));
        }
        i += 1;
    }
    push_char(&mut out, '"');
    proof {
        assert(out@ =~= escape_field(value@));
    }
    out
}

/// Appends the wire form of one row to `out`: each value escaped,
/// `|` between values and never after the last, then a single `\n`.
fn append_row(out: &mut String, values: &Vec<String>)
    ensures
        final(out)@ == old(out)@ + encode_row(values.deep_view()),
{
    let ghost vals = values.deep_view();
    let n = values.len();
    let mut j: usize = 0;
    while j < n
        invariant
            n == values@.len(),
            vals == values.deep_view(),
            j <= n,
            out@ + encode_fields_from(vals, j as int) == old(out)@ + encode_fields_from(vals, 0),
        decreases n - j,
    {
        let ghost prev = out@;
        let escaped = escape_column_value(values[j].clone());
        out.append(escaped.as_str());
        proof {
            assert(vals[j as int] == values@[j as int]@);
        }
        if j + 1 < n {
            push_char(out, '|');
            proof {
                assert(out@ + encode_fields_from(vals, j + 1) =~= prev + encode_fields_from(
                    vals,
                    j as int,
                ));
            }
        } else {
            proof {
                assert(out@ + encode_fields_from(vals, j + 1) =~= prev + encode_fields_from(
                    vals,
                    j as int,
                ));
            }
        }
        j += 1;
    }
    push_char(out, '\n');
    proof {
        assert(final(out)@ =~= old(out)@ + encode_row(vals));
    }
}

/// The names of the given columns, in order.
pub open spec fn column_names<'a, F>(cds: Seq<ColumnDefinition<'a, F>>) -> Seq<Seq<char>> {
    Seq::new(cds.len(), |j: int| cds[j].name@)
}

/// Whether `value` is one possible value of column `j` for `item`:
/// a result that the column's projection may return for it.
pub open spec fn projects_value<'a, T, F: Fn(&T) -> String>(
    cds: Seq<ColumnDefinition<'a, F>>,
    item: T,
    j: int,
    value: Seq<char>,
) -> bool {
    exists|t: &T, s: String|
        *t == item && #[trigger] call_ensures(cds[j].extract_column, (t,), s) && s@ == value
}

/// Whether `row` is one possible projection of `item` under the given
/// columns: one value per column, each a result the column's
/// projection may return for the item.
pub open spec fn projects_row<'a, T, F: Fn(&T) -> String>(
    cds: Seq<ColumnDefinition<'a, F>>,
    item: T,
    row: Seq<Seq<char>>,
) -> bool {
    &&& row.len() == cds.len()
    &&& forall|j: int| 0 <= j < cds.len() ==> projects_value(cds, item, j, #[trigger] row[j])
}

/// Whether `rows` is one possible projection of `items`, row by row.
pub open spec fn projects_rows<'a, T, F: Fn(&T) -> String>(
    cds: Seq<ColumnDefinition<'a, F>>,
    items: Seq<T>,
    rows: Seq<Seq<Seq<char>>>,
) -> bool {
    &&& rows.len() == items.len()
    &&& forall|i: int| 0 <= i < items.len() ==> projects_row(cds, items[i], #[trigger] rows[i])
}

/// Appending one more row to an encoded sequence of rows appends its
/// line at the end.
proof fn lemma_encode_rows_from_push(rows: Seq<Seq<Seq<char>>>, row: Seq<Seq<char>>, i: int)
    requires
        0 <= i <= rows.len(),
    ensures
        encode_rows_from(rows.push(row), i) == encode_rows_from(rows, i) + encode_row(row),
    decreases rows.len() - i,
{
    if i == rows.len() {
        assert(rows.push(row)[i] == row);
        assert(encode_rows_from(rows.push(row), i + 1) == Seq::<char>::empty());
        assert(encode_rows_from(rows, i) == Seq::<char>::empty());
        assert(encode_rows_from(rows.push(row), i) =~= encode_rows_from(rows, i) + encode_row(
            row,
        ));
    } else {
        lemma_encode_rows_from_push(rows, row, i + 1);
        assert(rows.push(row)[i] == rows[i]);
        assert(encode_rows_from(rows.push(row), i) =~= encode_rows_from(rows, i) + encode_row(
            row,
        ));
    }
}

/// Writer for the pipe-delimited quoted format: emits one line per
/// item, and optionally a leading header line of column names.
pub struct Writer {
    output_header: bool,
}

impl Writer {
    /// Whether a header line of column names is emitted before the
    /// data lines.
    pub closed spec fn header_enabled(&self) -> bool {
        self.output_header
    }

    /// Constructs a writer that emits no header line.
    pub fn new() -> (r: Writer)
        ensures
            !r.header_enabled(),
    {
        Writer { output_header: false }
    }

    /// Turns header emission on.
    pub fn with_header(self) -> (r: Writer)
        ensures
            r.header_enabled(),
    {
        Writer { output_header: true }
    }

    /// Serialises `items` to `out` under the given column
    /// definitions: if header emission is on, first one line of the
    /// column names, then for each item in order one line of its
    /// projected column values, every value escaped and quoted,
    /// fields separated by `|` and each line ended by `\n`.
    pub fn write_columns<'a, T, F: Fn(&T) -> String>(
        &self,
        out: &mut String,
        column_definitions: Vec<ColumnDefinition<'a, F>>,
        items: Vec<T>,
    )
        requires
            forall|j: int, t: &T|
                0 <= j < column_definitions@.len() ==> #[trigger] call_requires(
                    column_definitions@[j].extract_column,
                    (t,),
                ),
        ensures
            exists|rows: Seq<Seq<Seq<char>>>|
                {
                    &&& #[trigger] projects_rows(column_definitions@, items@, rows)
                    &&& final(out)@ == old(out)@ + (if self.header_enabled() {
                        encode_row(column_names(column_definitions@))
                    } else {
                        Seq::<char>::empty()
                    }) + encode_rows(rows)
                },
    {
        let ghost head = if self.output_header {
            encode_row(column_names(column_definitions@))
        } else {
            Seq::<char>::empty()
        };
        if self.output_header {
            let mut names: Vec<String> = Vec::new();
            let mut j: usize = 0;
            while j < column_definitions.len()
                invariant
                    j <= column_definitions@.len(),
                    names.deep_view() =~= column_names(column_definitions@).take(j as int),
                decreases column_definitions@.len() - j,
            {
                let ghost prev_names = names.deep_view();
                let ghost prev_view = names@;
                let nm = column_definitions[j].name.to_owned();
                names.push(nm);
                proof {
                    let cn = column_names(column_definitions@);
                    assert(prev_names.len() == prev_view.len());
                    assert(prev_names.len() == j as int);
                    assert(names@ == prev_view.push(nm));
                    assert(names@.len() == j + 1);
                    assert forall|k: int| 0 <= k < j + 1 implies names.deep_view()[k] == cn.take(
                        j + 1,
                    )[k] by {
                        if k < j {
                            assert(names@[k] == prev_view[k]);
                            assert(names.deep_view()[k] == prev_names[k]);
                            assert(prev_names[k] == cn.take(j as int)[k]);
                        }
                    }
                    assert(names.deep_view() =~= cn.take(j + 1));
                }
                j += 1;
            }
            proof {
                assert(names.deep_view() =~= column_names(column_definitions@));
            }
            append_row(out, &names);
        } else {
            proof {
                assert(out@ =~= old(out)@ + head);
            }
        }
        let ghost mut rows: Seq<Seq<Seq<char>>> = Seq::empty();
        proof {
            assert(out@ =~= old(out)@ + head + encode_rows(rows));
        }
        let mut i: usize = 0;
        while i < items.len()
            invariant
                i <= items@.len(),
                forall|j: int, t: &T|
                    0 <= j < column_definitions@.len() ==> #[trigger] call_requires(
                        column_definitions@[j].extract_column,
                        (t,),
                    ),
                projects_rows(column_definitions@, items@.take(i as int), rows),
                out@ == old(out)@ + head + encode_rows(rows),
            decreases items@.len() - i,
        {
            let ghost prev = out@;
            let item = &items[i];
            let mut vals: Vec<String> = Vec::new();
            let mut j: usize = 0;
            while j < column_definitions.len()
                invariant
                    0 <= i < items@.len(),
                    j <= column_definitions@.len(),
                    forall|jj: int, t: &T|
                        0 <= jj < column_definitions@.len() ==> #[trigger] call_requires(
                            column_definitions@[jj].extract_column,
                            (t,),
                        ),
                    *item == items@[i as int],
                    vals@.len() == j,
                    forall|jj: int|
                        0 <= jj < j ==> projects_value(
                            column_definitions@,
                            items@[i as int],
                            jj,
                            #[trigger] vals.deep_view()[jj],
                        ),
                decreases column_definitions@.len() - j,
            {
                let ghost prev_vals = vals.deep_view();
                let ghost prev_view = vals@;
                let s = (column_definitions[j].extract_column)(item);
                vals.push(s);
                proof {
                    assert(vals@.len() == j + 1);
                    assert(vals.deep_view()[j as int] == s@);
                    assert forall|jj: int| 0 <= jj < j + 1 implies projects_value(
                        column_definitions@,
                        items@[i as int],
                        jj,
                        vals.deep_view()[jj],
                    ) by {
                        if jj < j {
                            assert(vals@[jj] == prev_view[jj]);
                            assert(vals.deep_view()[jj] == prev_vals[jj]);
                        } else {
                            assert(*item == items@[i as int] && call_ensures(
                                column_definitions@[jj].extract_column,
                                (item,),
                                s,
                            ) && s@ == vals.deep_view()[jj]);
                        }
                    }
                }
                j += 1;
            }
            proof {
                assert(projects_row(column_definitions@, items@[i as int], vals.deep_view()));
            }
            append_row(out, &vals);
            proof {
                lemma_encode_rows_from_push(rows, vals.deep_view(), 0);
                rows = rows.push(vals.deep_view());
                assert(out@ =~= old(out)@ + head + encode_rows(rows));
                assert(items@.take(i + 1).drop_last() =~= items@.take(i as int));
                assert(projects_rows(column_definitions@, items@.take(i + 1), rows));
            }
            i += 1;
        }
        proof {
            assert(items@.take(items@.len() as int) =~= items@);
            assert(projects_rows(column_definitions@, items@, rows));
        }
    }
}

} // verus!
