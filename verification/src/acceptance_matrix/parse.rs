//! Parser for the acceptance matrix TSV.
use super::model::{header, header_spec, MatrixRow, COLUMNS};
use crate::text::{
    cat3, decimal_string, eq_str, to_string, lines, lines_of, split_char, split_str, starts_with, starts_with_str,
    trim, trim_str,
};
use vstd::prelude::*;

verus! {

/// Blank lines and `#` comments carry no row.
pub open spec fn skipped_line(line: Seq<char>) -> bool {
    trim(line).len() == 0 || starts_with(line, seq!['#'])
}

/// A data line splits into exactly the header's width of unpadded fields.
pub open spec fn row_fields_ok(fields: Seq<Seq<char>>) -> bool {
    fields.len() == COLUMNS && forall|i: int| 0 <= i < fields.len() ==> trim(#[trigger] fields[i])
        == fields[i]
}

/// The rows of the data lines, or `None` when one of them is malformed.
pub open spec fn parse_rows(ls: Seq<Seq<char>>) -> Option<Seq<Seq<Seq<char>>>>
    decreases ls.len(),
{
    if ls.len() == 0 {
        Some(Seq::empty())
    } else {
        match parse_rows(ls.drop_last()) {
            None => None,
            Some(rows) => {
                let line = ls.last();
                if skipped_line(line) {
                    Some(rows)
                } else if row_fields_ok(split_char(line, '\t')) {
                    Some(rows.push(split_char(line, '\t')))
                } else {
                    None
                }
            },
        }
    }
}

/// The matrix: an exact header line, then data rows.
pub open spec fn parse_matrix_spec(content: Seq<char>) -> Option<Seq<Seq<Seq<char>>>> {
    let ls = lines(content);
    let first = if ls.len() > 0 {
        ls[0]
    } else {
        Seq::<char>::empty()
    };
    if split_char(first, '\t') != header_spec() {
        None
    } else {
        parse_rows(ls.skip(1))
    }
}

/// A malformed line poisons every longer run of lines that starts with it.
pub proof fn lemma_parse_rows_prefix_none(ls: Seq<Seq<char>>, k: int)
    requires
        0 <= k <= ls.len(),
        parse_rows(ls.take(k)) is None,
    ensures
        parse_rows(ls) is None,
    decreases ls.len(),
{
    if k == ls.len() {
        assert(ls.take(k) =~= ls);
    } else {
        assert(ls.drop_last().take(k) =~= ls.take(k));
        lemma_parse_rows_prefix_none(ls.drop_last(), k);
    }
}

pub open spec fn rows_view(rows: Seq<MatrixRow>) -> Seq<Seq<Seq<char>>> {
    rows.map_values(|r: MatrixRow| r.fields())
}

fn header_line_ok(first: &str) -> (r: bool)
    ensures
        r == (split_char(first@, '\t') == header_spec()),
{
    let actual = split_str(first, '\t');
    let expected = header();
    if actual.len() != expected.len() {
        assert(actual.deep_view().len() == actual@.len());
        assert(header_spec().len() == COLUMNS);
        return false;
    }
    let mut i: usize = 0;
    while i < actual.len()
        invariant
            actual.len() == expected.len() == COLUMNS,
            actual.deep_view() == split_char(first@, '\t'),
            i <= actual.len(),
            forall|k: int| 0 <= k < COLUMNS ==> #[trigger] expected@[k]@ == header_spec()[k],
            forall|k: int| 0 <= k < i ==> actual.deep_view()[k] == header_spec()[k],
        decreases actual.len() - i,
    {
        if !eq_str(actual[i].as_str(), expected[i]) {
            assert(actual.deep_view()[i as int] == actual@[i as int]@);
            assert(expected@[i as int]@ == header_spec()[i as int]);
            assert(actual.deep_view()[i as int] != header_spec()[i as int]);
            return false;
        }
        i += 1;
    }
    assert(actual.deep_view() =~= header_spec());
    true
}

fn fields_unpadded(fields: &Vec<String>) -> (r: bool)
    ensures
        r == forall|i: int| 0 <= i < fields.deep_view().len() ==> trim(
            #[trigger] fields.deep_view()[i],
        ) == fields.deep_view()[i],
{
    let mut i: usize = 0;
    while i < fields.len()
        invariant
            i <= fields.len(),
            forall|k: int| 0 <= k < i ==> trim(#[trigger] fields.deep_view()[k])
                == fields.deep_view()[k],
        decreases fields.len() - i,
    {
        let t = trim_str(fields[i].as_str());
        if !eq_str(t.as_str(), fields[i].as_str()) {
            assert(trim(fields.deep_view()[i as int]) != fields.deep_view()[i as int]);
            return false;
        }
        i += 1;
    }
    true
}

/// Parses the matrix TSV: the header must be exact and every data line
/// must have exactly the header's width of unpadded fields.
pub fn parse_matrix(content: &str) -> (r: Result<Vec<MatrixRow>, String>)
    ensures
        match r {
            Ok(rows) => parse_matrix_spec(content@) == Some(rows_view(rows@)),
            Err(_) => parse_matrix_spec(content@) is None,
        },
{
    let ls = lines_of(content);
    let first = if ls.len() > 0 {
        ls[0].clone()
    } else {
        String::new()
    };
    if !header_line_ok(first.as_str()) {
        return Err(
            to_string(
                "acceptance-matrix: invalid header; expected requirement_id | journey_id | flow_id | case_id | surface | mode | gate | requirement | evidence_kind | evidence_id | evidence_ref | freshness | note",
            ),
        );
    }
    let ghost body = lines(content@).skip(1);
    let mut rows: Vec<MatrixRow> = Vec::new();
    let mut i: usize = 1;
    assert(body.take(0) =~= Seq::<Seq<char>>::empty());
    while i < ls.len()
        invariant
            1 <= i <= ls.len(),
            ls.deep_view() == lines(content@),
            body == lines(content@).skip(1),
            parse_rows(body.take(i - 1)) == Some(rows_view(rows@)),
        decreases ls.len() - i,
    {
        let line = &ls[i];
        let ghost prefix = body.take(i - 1);
        assert(body.take(i as int).drop_last() =~= prefix);
        assert(body.take(i as int).last() == line@);
        proof {
            reveal_strlit("#");
        }
        assert("#"@ =~= seq!['#']);
        let t = trim_str(line.as_str());
        if !(t.as_str().is_empty() || starts_with_str(line.as_str(), "#")) {
            let fields = split_str(line.as_str(), '\t');
            if fields.len() != COLUMNS || !fields_unpadded(&fields) {
                proof {
                    lemma_parse_rows_prefix_none(body, i as int);
                }
                let at = decimal_string((i + 1) as u128);
                if fields.len() != COLUMNS {
                    let n = decimal_string(fields.len() as u128);
                    let head = cat3("acceptance-matrix: line ", at.as_str(), " has ");
                    return Err(cat3(head.as_str(), n.as_str(), " fields, expected 13"));
                }
                return Err(cat3("acceptance-matrix: line ", at.as_str(), " contains padded fields"));
            }
            let row = MatrixRow::from_fields(&fields);
            assert(fields.deep_view().take(COLUMNS as int) =~= fields.deep_view());
            let ghost old_rows = rows@;
            rows.push(row);
            assert(rows_view(rows@) =~= rows_view(old_rows).push(split_char(line@, '\t')));
        }
        i += 1;
    }
    if ls.len() > 0 {
        assert(body.take(ls.len() - 1) =~= body);
    } else {
        assert(false);
    }
    Ok(rows)
}

} // verus!
