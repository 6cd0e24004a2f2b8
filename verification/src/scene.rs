//! Reading the records of a Wavefront OBJ text: the lines that begin with a
//! given symbol (`v` for a vertex, `f` for a face), each taken apart into its
//! fields, and the corners that a face names among the vertices.

use vstd::prelude::*;
use crate::text::{
    chars_of,
    index_of_word,
    lines,
    parse_index,
    split_lines,
    split_words,
    views,
    words,
};

verus! {

/// A line is a record of `symbol` where `symbol` is its first character.
pub open spec fn selected(line: Seq<char>, symbol: char) -> bool {
    line.len() > 0 && line[0] == symbol
}

/// A word is a field of a record of `symbol` unless it begins with `symbol`.
pub open spec fn is_field(word: Seq<char>, symbol: char) -> bool {
    word.len() > 0 && word[0] != symbol
}

/// The test for the records of `symbol`.
pub open spec fn record_test(symbol: char) -> spec_fn(Seq<char>) -> bool {
    |line: Seq<char>| selected(line, symbol)
}

/// The test for the fields of a record of `symbol`.
pub open spec fn field_test(symbol: char) -> spec_fn(Seq<char>) -> bool {
    |word: Seq<char>| is_field(word, symbol)
}

/// The fields of a record: its words, but for those that begin with `symbol`.
pub open spec fn fields(line: Seq<char>, symbol: char) -> Seq<Seq<char>> {
    words(line).filter(field_test(symbol))
}

/// The fields of each of the lines, in their order.
pub open spec fn fields_of_each(rows: Seq<Seq<char>>, symbol: char) -> Seq<Seq<Seq<char>>> {
    Seq::new(rows.len(), |i: int| fields(rows[i], symbol))
}

/// The records of `symbol` in `text`, each as its fields, in the order of
/// the text.
pub open spec fn records(text: Seq<char>, symbol: char) -> Seq<Seq<Seq<char>>> {
    fields_of_each(lines(text).filter(record_test(symbol)), symbol)
}

/// Whether each field of `record` writes an index.
pub open spec fn all_indices(record: Seq<Seq<char>>) -> bool {
    forall|j: int| 0 <= j < record.len() ==> index_of_word(#[trigger] record[j]) is Some
}

/// The indices that the fields of `record` write.
pub open spec fn indices(record: Seq<Seq<char>>) -> Seq<usize> {
    Seq::new(record.len(), |j: int| index_of_word(record[j]).unwrap())
}

/// Whether every field of every record of `symbol` in `text` writes an index.
pub open spec fn faces_are_numbers(text: Seq<char>, symbol: char) -> bool {
    forall|i: int|
        0 <= i < records(text, symbol).len() ==> all_indices(#[trigger] records(text, symbol)[i])
}

/// The records of `symbol` in `text`, each as the indices its fields write.
pub open spec fn faces(text: Seq<char>, symbol: char) -> Seq<Seq<usize>> {
    Seq::new(records(text, symbol).len(), |i: int| indices(records(text, symbol)[i]))
}

/// The fields that the vectors of `rows` hold, record by record.
pub open spec fn record_views(rows: Seq<Vec<Vec<char>>>) -> Seq<Seq<Seq<char>>> {
    Seq::new(rows.len(), |i: int| views(rows[i]@))
}

/// A copy of `word`.
fn copy_word(word: &Vec<char>) -> (copy: Vec<char>)
    ensures
        copy@ == word@,
{
    let mut copy: Vec<char> = Vec::new();
    let mut i: usize = 0;
    while i < word.len()
        invariant
            0 <= i <= word.len(),
            copy@ == word@.take(i as int),
        decreases word.len() - i,
    {
        copy.push(word[i]);
        i = i + 1;
        assert(copy@ =~= word@.take(i as int));
    }
    assert(word@.take(i as int) =~= word@);
    copy
}

/// The fields of `line`, read as a record of `symbol`.
pub fn fields_of_line(line: &Vec<char>, symbol: char) -> (found: Vec<Vec<char>>)
    ensures
        views(found@) == fields(line@, symbol),
{
    let all = split_words(line);
    let mut found: Vec<Vec<char>> = Vec::new();
    let mut i: usize = 0;
    assert(views(found@) =~= words(line@).take(0).filter(field_test(symbol))) by {
        reveal(Seq::filter);
    }
    while i < all.len()
        invariant
            0 <= i <= all.len(),
            views(all@) == words(line@),
            views(found@) == words(line@).take(i as int).filter(field_test(symbol)),
        decreases all.len() - i,
    {
        let word = &all[i];
        proof {
            reveal(Seq::filter);
            let test = field_test(symbol);
            let now = words(line@).take(i + 1);
            assert(now.drop_last() =~= words(line@).take(i as int));
            assert(now.last() == word@);
            assert(test(word@) == is_field(word@, symbol));
            assert(now.filter(test) == if test(now.last()) {
                now.drop_last().filter(test).push(now.last())
            } else {
                now.drop_last().filter(test)
            });
        }
        if word.len() > 0 && word[0] != symbol {
            let copy = copy_word(word);
            proof {
                assert(views(found@.push(copy)) =~= views(found@).push(copy@));
            }
            found.push(copy);
        }
        i = i + 1;
    }
    assert(words(line@).take(i as int) =~= words(line@));
    found
}

/// The indices that the fields of `record` write, or `None` where one of
/// them writes none.
pub fn indices_of_record(record: &Vec<Vec<char>>) -> (found: Option<Vec<usize>>)
    ensures
        found is Some <==> all_indices(views(record@)),
        found matches Some(v) ==> v@ == indices(views(record@)),
{
    let mut found: Vec<usize> = Vec::new();
    let mut j: usize = 0;
    while j < record.len()
        invariant
            0 <= j <= record.len(),
            found@.len() == j,
            forall|k: int|
                0 <= k < j ==> index_of_word(#[trigger] views(record@)[k]) == Some(found@[k]),
        decreases record.len() - j,
    {
        assert(views(record@)[j as int] == record@[j as int]@);
        match parse_index(&record[j]) {
            Some(index) => {
                found.push(index);
            },
            None => {
                return None;
            },
        }
        j = j + 1;
    }
    assert(found@ =~= indices(views(record@)));
    Some(found)
}

/// Whether `face` names three vertices to begin with, each among the
/// `vertex_count` vertices, which a face counts from 1.
pub open spec fn names_triangle(face: Seq<usize>, vertex_count: usize) -> bool {
    &&& face.len() >= 3
    &&& 1 <= face[0] <= vertex_count
    &&& 1 <= face[1] <= vertex_count
    &&& 1 <= face[2] <= vertex_count
}

/// The places of the three corners of `face` among the vertices, counted
/// from 0.
pub open spec fn corners(face: Seq<usize>) -> (usize, usize, usize) {
    ((face[0] - 1) as usize, (face[1] - 1) as usize, (face[2] - 1) as usize)
}

/// Reads mesh records from text.
pub struct Scene {}

impl Scene {
    /// The records of `symbol` in the text, each as its fields, in the order
    /// of the text.
    pub fn records_from_txt(file_content: &String, symbol: char) -> (rows: Vec<Vec<Vec<char>>>)
        ensures
            record_views(rows@) == records(file_content@, symbol),
    {
        let text = chars_of(file_content.as_str());
        let all = split_lines(&text);
        let ghost chosen = lines(text@);
        let mut rows: Vec<Vec<Vec<char>>> = Vec::new();
        let mut i: usize = 0;
        assert(record_views(rows@) =~= fields_of_each(
            chosen.take(0).filter(record_test(symbol)),
            symbol,
        )) by {
            reveal(Seq::filter);
        }
        while i < all.len()
            invariant
                0 <= i <= all.len(),
                views(all@) == chosen,
                record_views(rows@) == fields_of_each(
                    chosen.take(i as int).filter(record_test(symbol)),
                    symbol,
                ),
            decreases all.len() - i,
        {
            let line = &all[i];
            proof {
                reveal(Seq::filter);
                let test = record_test(symbol);
                let now = chosen.take(i + 1);
                assert(now.drop_last() =~= chosen.take(i as int));
                assert(now.last() == line@);
                assert(test(line@) == selected(line@, symbol));
                assert(now.filter(test) == if test(now.last()) {
                    now.drop_last().filter(test).push(now.last())
                } else {
                    now.drop_last().filter(test)
                });
            }
            if line.len() > 0 && line[0] == symbol {
                let record = fields_of_line(line, symbol);
                proof {
                    let before = chosen.take(i as int).filter(record_test(symbol));
                    let grown = fields_of_each(before.push(line@), symbol);
                    let pushed = record_views(rows@.push(record));
                    assert(record_views(rows@).len() == rows@.len());
                    assert(fields_of_each(before, symbol).len() == before.len());
                    assert(pushed.len() == grown.len());
                    assert forall|k: int| 0 <= k < pushed.len() implies pushed[k] == grown[k] by {
                        if k < rows@.len() {
                            assert(pushed[k] == record_views(rows@)[k]);
                            assert(grown[k] == fields_of_each(before, symbol)[k]);
                        }
                    }
                    assert(pushed =~= grown);
                }
                rows.push(record);
            }
            i = i + 1;
        }
        assert(chosen.take(i as int) =~= chosen);
        rows
    }

    /// The records of `symbol` in the text, each as the indices its fields
    /// write, or `None` where a field of one of them writes no index.
    pub fn parse_faces(file_content: &String, symbol: char) -> (found: Option<Vec<Vec<usize>>>)
        ensures
            found is Some <==> faces_are_numbers(file_content@, symbol),
            found matches Some(v) ==> views(v@) == faces(file_content@, symbol),
    {
        let rows = Scene::records_from_txt(file_content, symbol);
        let ghost all = records(file_content@, symbol);
        let mut found: Vec<Vec<usize>> = Vec::new();
        let mut i: usize = 0;
        while i < rows.len()
            invariant
                0 <= i <= rows.len(),
                record_views(rows@) == all,
                all == records(file_content@, symbol),
                found@.len() == i,
                forall|k: int| 0 <= k < i ==> all_indices(#[trigger] all[k]),
                forall|k: int| 0 <= k < i ==> (#[trigger] found@[k])@ == indices(all[k]),
            decreases rows.len() - i,
        {
            assert(all[i as int] == views(rows@[i as int]@));
            match indices_of_record(&rows[i]) {
                Some(face) => {
                    found.push(face);
                },
                None => {
                    return None;
                },
            }
            i = i + 1;
        }
        assert(views(found@) =~= faces(file_content@, symbol));
        Some(found)
    }

    /// The corners of each face among `vertex_count` vertices, or `None`
    /// where a face names fewer than three vertices or a vertex that is not
    /// there. What a face names beyond its third vertex is left aside.
    pub fn face_corners(faces: &Vec<Vec<usize>>, vertex_count: usize) -> (found: Option<
        Vec<(usize, usize, usize)>,
    >)
        ensures
            found is Some <==> forall|i: int|
                0 <= i < faces.len() ==> names_triangle(#[trigger] faces[i]@, vertex_count),
            found matches Some(v) ==> {
                &&& v.len() == faces.len()
                &&& forall|i: int| 0 <= i < v.len() ==> #[trigger] v[i] == corners(faces[i]@)
            },
    {
        let mut found: Vec<(usize, usize, usize)> = Vec::new();
        let mut i: usize = 0;
        while i < faces.len()
            invariant
                0 <= i <= faces.len(),
                found.len() == i,
                forall|k: int| 0 <= k < i ==> names_triangle(#[trigger] faces[k]@, vertex_count),
                forall|k: int| 0 <= k < i ==> #[trigger] found[k] == corners(faces[k]@),
            decreases faces.len() - i,
        {
            let face = &faces[i];
            if face.len() < 3 {
                return None;
            }
            let (a, b, c) = (face[0], face[1], face[2]);
            if a < 1 || a > vertex_count || b < 1 || b > vertex_count || c < 1 || c
                > vertex_count {
                return None;
            }
            found.push((a - 1, b - 1, c - 1));
            i = i + 1;
        }
        Some(found)
    }

    /// The records of `symbol` in the text, each as the indices its fields
    /// write. Every field of every record has to write an index.
    pub fn face_from_txt(file_content: &String, symbol: char) -> (found: Vec<Vec<usize>>)
        requires
            faces_are_numbers(file_content@, symbol),
        ensures
            views(found@) == faces(file_content@, symbol),
    {
        match Scene::parse_faces(file_content, symbol) {
            Some(found) => found,
            None => Vec::new(),
        }
    }
}

} // verus!
