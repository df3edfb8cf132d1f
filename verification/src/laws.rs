//! The laws tying the writer to the reader: text emitted by the
//! escaping writer decodes to exactly the rows it was given, header
//! line included.

use vstd::prelude::*;
use crate::grammar::{
    decode_all, encode_fields_from, encode_row, encode_rows, encode_rows_from, escape_char,
    escape_field, escape_from, next_row, row_emittable, scan_field, scan_row, suppressed,
    ParseError,
};

verus! {

/// Scanning the escaped body of `v` from its `k`th character on, with
/// the first `k` characters already decoded, runs to just past the
/// closing quote with the whole of `v` decoded.
proof fn lemma_scan_quoted(s: Seq<char>, p: int, v: Seq<char>, k: int)
    requires
        0 <= k <= v.len(),
        0 <= p,
        p + escape_from(v, k).len() + 1 <= s.len(),
        forall|i: int|
            0 <= i < escape_from(v, k).len() ==> s[p + i] == #[trigger] escape_from(v, k)[i],
        s[p + escape_from(v, k).len()] == '"',
    ensures
        scan_field(s, p, v.take(k), true, false) == scan_field(
            s,
            p + escape_from(v, k).len() + 1,
            v,
            true,
            true,
        ),
    decreases v.len() - k,
{
    let b = escape_from(v, k);
    if k == v.len() {
        assert(b.len() == 0);
        assert(s[p] == '"');
        assert(v.take(k) =~= v);
    } else {
        let c = v[k];
        let rest = escape_from(v, k + 1);
        assert(b == escape_char(c) + rest);
        if c == '\\' || c == '|' || c == '\n' || c == '\r' || c == '"' {
            assert(escape_char(c) == seq!['\\', c]);
            assert(b[0] == '\\' && b[1] == c);
            assert(s[p] == '\\');
            assert(s[p + 1] == c);
            assert(crate::grammar::is_escapable(c));
            assert(scan_field(s, p, v.take(k), true, false) == scan_field(
                s,
                p + 2,
                v.take(k).push(c),
                true,
                false,
            ));
            assert(v.take(k).push(c) =~= v.take(k + 1));
            assert forall|i: int| 0 <= i < rest.len() implies s[p + 2 + i] == #[trigger] rest[i] by {
                assert(b[2 + i] == rest[i]);
                assert(s[p + (2 + i)] == b[2 + i]);
            }
            assert(s[p + 2 + rest.len()] == '"');
            lemma_scan_quoted(s, p + 2, v, k + 1);
        } else {
            assert(escape_char(c) == seq![c]);
            assert(b[0] == c);
            assert(s[p] == c);
            assert(c != '|' && c != '\n' && c != '\r' && c != '"' && c != '\\');
            // a space inside quotes is kept, every other character is
            // a regular one
            assert(scan_field(s, p, v.take(k), true, false) == scan_field(
                s,
                p + 1,
                v.take(k).push(c),
                true,
                false,
            ));
            assert(v.take(k).push(c) =~= v.take(k + 1));
            assert forall|i: int| 0 <= i < rest.len() implies s[p + 1 + i] == #[trigger] rest[i] by {
                assert(b[1 + i] == rest[i]);
                assert(s[p + (1 + i)] == b[1 + i]);
            }
            assert(s[p + 1 + rest.len()] == '"');
            lemma_scan_quoted(s, p + 1, v, k + 1);
        }
    }
}

/// Scanning one whole escaped field runs to just past its closing
/// quote with exactly the raw value decoded.
proof fn lemma_scan_field_encoded(s: Seq<char>, p: int, v: Seq<char>)
    requires
        0 <= p,
        p + escape_field(v).len() <= s.len(),
        forall|i: int|
            0 <= i < escape_field(v).len() ==> s[p + i] == #[trigger] escape_field(v)[i],
    ensures
        scan_field(s, p, Seq::empty(), false, false) == scan_field(
            s,
            p + escape_field(v).len(),
            v,
            true,
            true,
        ),
{
    let e = escape_field(v);
    let b = escape_from(v, 0);
    assert(e == seq!['"'] + b + seq!['"']);
    assert(e.len() == b.len() + 2);
    assert(e[0] == '"');
    assert(s[p] == '"');
    assert(scan_field(s, p, Seq::empty(), false, false) == scan_field(
        s,
        p + 1,
        Seq::empty(),
        true,
        false,
    ));
    assert forall|i: int| 0 <= i < b.len() implies s[p + 1 + i] == #[trigger] b[i] by {
        assert(e[1 + i] == b[i]);
        assert(s[p + (1 + i)] == e[1 + i]);
    }
    assert(e[1 + b.len() as int] == '"');
    assert(s[p + 1 + b.len()] == '"');
    assert(v.take(0) =~= Seq::<char>::empty());
    lemma_scan_quoted(s, p + 1, v, 0);
}

/// Scanning the encoded fields of one row from its `j`th field on,
/// with the first `j` fields already decoded, decodes the whole row
/// and stops just past its `\n` terminator.
proof fn lemma_scan_row_encoded(s: Seq<char>, p: int, vals: Seq<Seq<char>>, j: int)
    requires
        0 <= j < vals.len(),
        0 <= p,
        p + encode_fields_from(vals, j).len() + 1 <= s.len(),
        forall|i: int|
            0 <= i < encode_fields_from(vals, j).len() ==> s[p + i] == #[trigger] encode_fields_from(
                vals,
                j,
            )[i],
        s[p + encode_fields_from(vals, j).len()] == '\n',
    ensures
        scan_row(s, p, vals.take(j)) == Ok::<(Seq<Seq<char>>, int, bool), ParseError>(
            (vals, p + encode_fields_from(vals, j).len() + 1, false),
        ),
    decreases vals.len() - j,
{
    let ef = encode_fields_from(vals, j);
    let e = escape_field(vals[j]);
    if j == vals.len() - 1 {
        assert(ef == e);
        lemma_scan_field_encoded(s, p, vals[j]);
        // the character after the closing quote is the terminator
        assert(s[p + e.len()] == '\n');
        assert(scan_field(s, p + e.len(), vals[j], true, true) == Ok::<
            (Seq<char>, int, crate::grammar::FieldEnd),
            ParseError,
        >((vals[j], p + e.len() + 1, crate::grammar::FieldEnd::Line)));
        assert(vals.take(j).push(vals[j]) =~= vals);
    } else {
        let rest = encode_fields_from(vals, j + 1);
        assert(ef == e + seq!['|'] + rest);
        assert forall|i: int| 0 <= i < e.len() implies s[p + i] == #[trigger] e[i] by {
            assert(ef[i] == e[i]);
        }
        lemma_scan_field_encoded(s, p, vals[j]);
        // the character after the closing quote is the delimiter
        assert(ef[e.len() as int] == '|');
        assert(s[p + e.len()] == '|');
        assert(scan_field(s, p + e.len(), vals[j], true, true) == Ok::<
            (Seq<char>, int, crate::grammar::FieldEnd),
            ParseError,
        >((vals[j], p + e.len() + 1, crate::grammar::FieldEnd::Pipe)));
        let p2 = p + e.len() + 1;
        assert forall|i: int| 0 <= i < rest.len() implies s[p2 + i] == #[trigger] rest[i] by {
            assert(ef[e.len() + 1 + i] == rest[i]);
            assert(s[p + (e.len() + 1 + i)] == ef[e.len() + 1 + i]);
        }
        assert(s[p2 + rest.len()] == '\n');
        assert(vals.take(j).push(vals[j]) =~= vals.take(j + 1));
        lemma_scan_row_encoded(s, p2, vals, j + 1);
    }
}

/// Decoding the encoding of rows `i` on, laid out at position `p` up
/// to the very end of `s`, yields exactly those rows.
proof fn lemma_decode_encoded_rows(s: Seq<char>, p: int, rows: Seq<Seq<Seq<char>>>, i: int)
    requires
        0 <= i <= rows.len(),
        0 <= p,
        forall|j: int| i <= j < rows.len() ==> row_emittable(#[trigger] rows[j]),
        p + encode_rows_from(rows, i).len() == s.len(),
        forall|k: int|
            0 <= k < encode_rows_from(rows, i).len() ==> s[p + k] == #[trigger] encode_rows_from(
                rows,
                i,
            )[k],
    ensures
        decode_all(s, p) == Ok::<Seq<Seq<Seq<char>>>, ParseError>(rows.skip(i)),
    decreases rows.len() - i,
{
    if i == rows.len() {
        assert(encode_rows_from(rows, i).len() == 0);
        assert(p == s.len());
        crate::grammar::lemma_next_row_advances(s, p);
        assert(rows.skip(i) =~= Seq::<Seq<Seq<char>>>::empty());
    } else {
        let er = encode_rows_from(rows, i);
        let row = encode_row(rows[i]);
        let ef = encode_fields_from(rows[i], 0);
        let rest = encode_rows_from(rows, i + 1);
        assert(er == row + rest);
        assert(row == ef + seq!['\n']);
        assert(row.len() == ef.len() + 1);
        assert forall|k: int| 0 <= k < ef.len() implies s[p + k] == #[trigger] ef[k] by {
            assert(er[k] == row[k]);
            assert(row[k] == ef[k]);
        }
        assert(row[ef.len() as int] == '\n');
        assert(er[ef.len() as int] == '\n');
        assert(s[p + ef.len()] == '\n');
        assert(rows[i].len() >= 1);
        assert(rows[i].take(0) =~= Seq::<Seq<char>>::empty());
        lemma_scan_row_encoded(s, p, rows[i], 0);
        let p2 = p + ef.len() + 1;
        assert(!suppressed(rows[i]));
        assert(next_row(s, p) == Ok::<Option<(Seq<Seq<char>>, int)>, ParseError>(
            Some((rows[i], p2)),
        ));
        assert forall|k: int| 0 <= k < rest.len() implies s[p2 + k] == #[trigger] rest[k] by {
            assert(er[row.len() + k] == rest[k]);
            assert(s[p + (row.len() + k)] == er[row.len() + k]);
        }
        lemma_decode_encoded_rows(s, p2, rows, i + 1);
        assert(seq![rows[i]] + rows.skip(i + 1) =~= rows.skip(i));
    }
}

/// Round-trip law: the encoding of any sequence of emittable rows —
/// rows with at least one field that are not a lone empty field —
/// decodes back to exactly those rows, whatever characters the field
/// values hold.
pub proof fn lemma_round_trip(rows: Seq<Seq<Seq<char>>>)
    requires
        forall|i: int| 0 <= i < rows.len() ==> row_emittable(#[trigger] rows[i]),
    ensures
        decode_all(encode_rows(rows), 0) == Ok::<Seq<Seq<Seq<char>>>, ParseError>(rows),
{
    lemma_decode_encoded_rows(encode_rows(rows), 0, rows, 0);
    assert(rows.skip(0) =~= rows);
}

/// Prepending one row to a sequence prepends its line to the
/// encoding.
proof fn lemma_encode_rows_cons(head: Seq<Seq<char>>, rows: Seq<Seq<Seq<char>>>, i: int)
    requires
        0 <= i <= rows.len(),
    ensures
        encode_rows_from(seq![head] + rows, i + 1) == encode_rows_from(rows, i),
    decreases rows.len() - i,
{
    if i == rows.len() {
    } else {
        assert((seq![head] + rows)[i + 1] == rows[i]);
        lemma_encode_rows_cons(head, rows, i + 1);
    }
}

/// Header law: with a header line of column names before the encoded
/// rows, the first decoded row is the names in order and the rows
/// after it are the items' rows in order.
pub proof fn lemma_header_round_trip(names: Seq<Seq<char>>, rows: Seq<Seq<Seq<char>>>)
    requires
        row_emittable(names),
        forall|i: int| 0 <= i < rows.len() ==> row_emittable(#[trigger] rows[i]),
    ensures
        decode_all(encode_row(names) + encode_rows(rows), 0) == Ok::<
            Seq<Seq<Seq<char>>>,
            ParseError,
        >(seq![names] + rows),
{
    let all = seq![names] + rows;
    assert forall|i: int| 0 <= i < all.len() implies row_emittable(#[trigger] all[i]) by {
        if i > 0 {
            assert(all[i] == rows[i - 1]);
        }
    }
    lemma_round_trip(all);
    lemma_encode_rows_cons(names, rows, 0);
    assert(all[0] == names);
    assert(encode_rows(all) == encode_row(names) + encode_rows_from(rows, 0));
}

} // verus!
