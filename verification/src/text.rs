//! Text taken apart: into lines, a line into words, a word into a number.

use vstd::prelude::*;

verus! {

/// The sequences that the vectors of `rows` hold, in their order.
pub open spec fn views<T>(rows: Seq<Vec<T>>) -> Seq<Seq<T>> {
    Seq::new(rows.len(), |i: int| rows[i]@)
}

/// The lines of `text`: the pieces between its line feeds. A text without a
/// line feed is one line, and a text that ends in a line feed ends in an
/// empty line.
pub open spec fn lines(text: Seq<char>) -> Seq<Seq<char>>
    decreases text.len(),
{
    if text.len() == 0 {
        seq![Seq::empty()]
    } else {
        let before = lines(text.drop_last());
        if text.last() == '\n' {
            before.push(Seq::empty())
        } else {
            before.drop_last().push(before.last().push(text.last()))
        }
    }
}

/// The lines put together again, a line feed between each two.
pub open spec fn joined(pieces: Seq<Seq<char>>) -> Seq<char>
    decreases pieces.len(),
{
    if pieces.len() == 0 {
        Seq::empty()
    } else if pieces.len() == 1 {
        pieces[0]
    } else {
        joined(pieces.drop_last()).push('\n') + pieces.last()
    }
}

/// A text has at least one line, no line holds a line feed, and the lines
/// joined by line feeds are the text: which says what the lines are.
pub proof fn lemma_lines_rebuild_the_text(text: Seq<char>)
    ensures
        lines(text).len() >= 1,
        forall|i: int, j: int|
            0 <= i < lines(text).len() && 0 <= j < lines(text)[i].len() ==> lines(text)[i][j]
                != '\n',
        joined(lines(text)) == text,
    decreases text.len(),
{
    if text.len() == 0 {
    } else {
        let shorter = text.drop_last();
        let before = lines(shorter);
        lemma_lines_rebuild_the_text(shorter);
        if text.last() == '\n' {
            let now = before.push(Seq::empty());
            assert(now.drop_last() =~= before);
            assert(joined(now) =~= joined(before).push('\n'));
            assert(shorter.push('\n') =~= text);
        } else {
            let grown = before.last().push(text.last());
            let now = before.drop_last().push(grown);
            assert(now.drop_last() =~= before.drop_last());
            assert forall|i: int, j: int|
                0 <= i < now.len() && 0 <= j < now[i].len() implies now[i][j] != '\n' by {
                if i < now.len() - 1 {
                    assert(now[i] == before[i]);
                } else if j < before.last().len() {
                    assert(now[i][j] == before[i][j]);
                }
            }
            if before.len() == 1 {
                assert(joined(now) =~= shorter.push(text.last()));
            } else {
                assert(joined(now) =~= (joined(before.drop_last()).push('\n') + before.last()).push(
                    text.last(),
                ));
            }
            assert(shorter.push(text.last()) =~= text);
        }
    }
}

/// The characters of a string.
pub fn chars_of(s: &str) -> (text: Vec<char>)
    ensures
        text@ == s@,
{
    let mut text: Vec<char> = Vec::new();
    for c in it: s.chars()
        invariant
            text@ == s@.take(it.index() as int),
            it.seq() == s@,
    {
        proof {
            assert(s@.take(it.index() + 1) =~= s@.take(it.index() as int).push(c));
        }
        text.push(c);
    }
    proof {
        assert(s@.take(s@.len() as int) =~= s@);
    }
    text
}

/// The lines of `text`.
pub fn split_lines(text: &Vec<char>) -> (rows: Vec<Vec<char>>)
    ensures
        views(rows@) == lines(text@),
{
    let mut done: Vec<Vec<char>> = Vec::new();
    let mut current: Vec<char> = Vec::new();
    let mut i: usize = 0;
    while i < text.len()
        invariant
            0 <= i <= text.len(),
            views(done@).push(current@) == lines(text@.take(i as int)),
        decreases text.len() - i,
    {
        let c = text[i];
        proof {
            let now = text@.take(i + 1);
            assert(now.drop_last() =~= text@.take(i as int));
            assert(now.last() == c);
            assert(views(done@).push(current@).drop_last() =~= views(done@));
        }
        if c == '\n' {
            proof {
                assert(views(done@.push(current)) =~= views(done@).push(current@));
            }
            done.push(current);
            current = Vec::new();
        } else {
            current.push(c);
        }
        i = i + 1;
    }
    proof {
        assert(text@.take(i as int) =~= text@);
        assert(views(done@.push(current)) =~= views(done@).push(current@));
    }
    done.push(current);
    done
}

/// White space, as Unicode defines it.
pub open spec fn is_space(c: char) -> bool {
    let u = c as u32;
    ||| 0x09 <= u <= 0x0d
    ||| u == 0x20
    ||| u == 0x85
    ||| u == 0xa0
    ||| u == 0x1680
    ||| 0x2000 <= u <= 0x200a
    ||| u == 0x2028
    ||| u == 0x2029
    ||| u == 0x202f
    ||| u == 0x205f
    ||| u == 0x3000
}

/// The words of `line`: its longest runs of characters that are not white
/// space, in their order.
pub open spec fn words(line: Seq<char>) -> Seq<Seq<char>>
    decreases line.len(),
{
    if line.len() == 0 {
        Seq::empty()
    } else {
        let before = words(line.drop_last());
        if is_space(line.last()) {
            before
        } else if line.len() >= 2 && !is_space(line[line.len() - 2]) {
            before.drop_last().push(before.last().push(line.last()))
        } else {
            before.push(seq![line.last()])
        }
    }
}

/// No word is empty and no word holds white space; a line that ends in a
/// character that is not white space has a last word, which ends in it.
pub proof fn lemma_words_are_solid(line: Seq<char>)
    ensures
        forall|i: int| 0 <= i < words(line).len() ==> (#[trigger] words(line)[i]).len() > 0,
        forall|i: int, j: int|
            0 <= i < words(line).len() && 0 <= j < words(line)[i].len() ==> !is_space(
                #[trigger] words(line)[i][j],
            ),
        line.len() > 0 && !is_space(line.last()) ==> words(line).len() > 0,
    decreases line.len(),
{
    if line.len() > 0 {
        let shorter = line.drop_last();
        let before = words(shorter);
        lemma_words_are_solid(shorter);
        if is_space(line.last()) {
        } else if line.len() >= 2 && !is_space(line[line.len() - 2]) {
            assert(shorter.last() == line[line.len() - 2]);
            let now = words(line);
            assert forall|i: int, j: int|
                0 <= i < now.len() && 0 <= j < now[i].len() implies !is_space(
                #[trigger] now[i][j],
            ) by {
                if i < now.len() - 1 {
                    assert(now[i] == before[i]);
                } else if j < before.last().len() {
                    assert(now[i][j] == before[i][j]);
                }
            }
            assert forall|i: int| 0 <= i < now.len() implies (#[trigger] now[i]).len() > 0 by {
                if i < now.len() - 1 {
                    assert(now[i] == before[i]);
                }
            }
        } else {
        }
    }
}

/// Whether `c` is white space.
pub fn is_whitespace(c: char) -> (space: bool)
    ensures
        space == is_space(c),
{
    let u = c as u32;
    (0x09 <= u && u <= 0x0d) || u == 0x20 || u == 0x85 || u == 0xa0 || u == 0x1680 || (0x2000 <= u
        && u <= 0x200a) || u == 0x2028 || u == 0x2029 || u == 0x202f || u == 0x205f || u
        == 0x3000
}

/// The words of `line`.
pub fn split_words(line: &Vec<char>) -> (found: Vec<Vec<char>>)
    ensures
        views(found@) == words(line@),
{
    let mut done: Vec<Vec<char>> = Vec::new();
    let mut current: Vec<char> = Vec::new();
    let mut i: usize = 0;
    assert(views(done@) =~= words(line@.take(0)));
    while i < line.len()
        invariant
            0 <= i <= line.len(),
            current.len() > 0 <==> i > 0 && !is_space(line[i - 1]),
            words(line@.take(i as int)) == if current.len() > 0 {
                views(done@).push(current@)
            } else {
                views(done@)
            },
        decreases line.len() - i,
    {
        let c = line[i];
        proof {
            let now = line@.take(i + 1);
            assert(now.drop_last() =~= line@.take(i as int));
            assert(now.last() == c);
            if i > 0 {
                assert(now[now.len() - 2] == line[i - 1]);
            }
            assert(views(done@).push(current@).drop_last() =~= views(done@));
            assert(views(done@.push(current)) =~= views(done@).push(current@));
        }
        if is_whitespace(c) {
            if current.len() > 0 {
                done.push(current);
                current = Vec::new();
            }
        } else {
            proof {
                if current.len() == 0 {
                    assert(current@.push(c) =~= seq![c]);
                }
            }
            current.push(c);
        }
        i = i + 1;
    }
    proof {
        assert(line@.take(i as int) =~= line@);
        assert(views(done@.push(current)) =~= views(done@).push(current@));
    }
    if current.len() > 0 {
        done.push(current);
    }
    done
}

/// Whether `c` is one of the ASCII digits.
pub open spec fn is_digit(c: char) -> bool {
    0x30 <= c as u32 <= 0x39
}

/// The number that a run of ASCII digits writes, read as a decimal numeral.
pub open spec fn digits_value(digits: Seq<char>) -> nat
    decreases digits.len(),
{
    if digits.len() == 0 {
        0
    } else {
        10 * digits_value(digits.drop_last()) + (digits.last() as u32 - 0x30) as nat
    }
}

/// Whether `word` writes a number: ASCII digits, at least one, with at most
/// one plus sign in front of them.
pub open spec fn is_numeral(word: Seq<char>) -> bool {
    let digits = numeral_digits(word);
    digits.len() > 0 && forall|i: int| 0 <= i < digits.len() ==> is_digit(#[trigger] digits[i])
}

/// The digits of a numeral: the word without its plus sign.
pub open spec fn numeral_digits(word: Seq<char>) -> Seq<char> {
    if word.len() > 0 && word[0] == '+' {
        word.skip(1)
    } else {
        word
    }
}

/// The index that `word` writes, if it writes a number that fits the
/// machine word.
pub open spec fn index_of_word(word: Seq<char>) -> Option<usize> {
    if is_numeral(word) && digits_value(numeral_digits(word)) <= usize::MAX {
        Some(digits_value(numeral_digits(word)) as usize)
    } else {
        None
    }
}

/// More digits never write a smaller number.
proof fn lemma_digits_value_grows(digits: Seq<char>, n: int)
    requires
        0 <= n <= digits.len(),
    ensures
        digits_value(digits.take(n)) <= digits_value(digits),
    decreases digits.len() - n,
{
    if n < digits.len() {
        lemma_digits_value_grows(digits, n + 1);
        assert(digits.take(n + 1).drop_last() =~= digits.take(n));
    } else {
        assert(digits.take(n) =~= digits);
    }
}

/// The index that `word` writes, or `None` where it writes none.
pub fn parse_index(word: &Vec<char>) -> (index: Option<usize>)
    ensures
        index == index_of_word(word@),
{
    let start: usize = if word.len() > 0 && word[0] == '+' {
        1
    } else {
        0
    };
    let ghost digits = numeral_digits(word@);
    assert(digits =~= word@.skip(start as int));
    if start >= word.len() {
        return None;
    }
    let mut value: usize = 0;
    let mut i: usize = start;
    while i < word.len()
        invariant
            start <= i <= word.len(),
            digits == word@.skip(start as int),
            digits == numeral_digits(word@),
            forall|j: int| 0 <= j < i - start ==> is_digit(#[trigger] digits[j]),
            value == digits_value(digits.take(i - start)),
        decreases word.len() - i,
    {
        let u = word[i] as u32;
        assert(digits[i - start] == word[i as int]);
        if u < 0x30 || u > 0x39 {
            assert(!is_digit(digits[i - start]));
            return None;
        }
        let d: usize = (u - 0x30) as usize;
        proof {
            let longer = digits.take(i - start + 1);
            assert(longer.drop_last() =~= digits.take(i - start));
            assert(longer.last() == word[i as int]);
            assert(digits_value(longer) == 10 * value + d);
            lemma_digits_value_grows(digits, i - start + 1);
        }
        value = match value.checked_mul(10) {
            Some(tens) => match tens.checked_add(d) {
                Some(sum) => sum,
                None => {
                    return None;
                },
            },
            None => {
                return None;
            },
        };
        i = i + 1;
    }
    assert(digits.take(i - start) =~= digits);
    Some(value)
}

} // verus!
