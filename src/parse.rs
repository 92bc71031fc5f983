use vstd::prelude::*;
use crate::block_type::{block_of, is_block_char, BlockType};
use crate::level::{new_outcome, rows_of, Level, LevelCreationError};
use crate::point::Point;

verus! {

/// The text with every carriage return removed.
pub open spec fn strip_cr(s: Seq<char>) -> Seq<char>
    decreases s.len(),
{
    if s.len() == 0 {
        s
    } else if s.last() == '\r' {
        strip_cr(s.drop_last())
    } else {
        strip_cr(s.drop_last()).push(s.last())
    }
}

/// The pieces between occurrences of `sep`, as `str::split` gives them: one
/// more piece than there are separators, empty pieces included.
pub open spec fn split_on(s: Seq<char>, sep: char) -> Seq<Seq<char>>
    decreases s.len(),
{
    if s.len() == 0 {
        seq![Seq::<char>::empty()]
    } else {
        let p = split_on(s.drop_last(), sep);
        if s.last() == sep {
            p.push(Seq::<char>::empty())
        } else {
            p.update(p.len() - 1, p.last().push(s.last()))
        }
    }
}

/// The lines of a level text.
pub open spec fn lines_of(text: Seq<char>) -> Seq<Seq<char>> {
    split_on(strip_cr(text), '\n')
}

pub open spec fn is_digit(c: char) -> bool {
    '0' <= c <= '9'
}

pub open spec fn all_digits(s: Seq<char>) -> bool {
    forall|i: int| 0 <= i < s.len() ==> is_digit(#[trigger] s[i])
}

/// The value of a string of decimal digits.
pub open spec fn digits_value(s: Seq<char>) -> int
    decreases s.len(),
{
    if s.len() == 0 {
        0
    } else {
        digits_value(s.drop_last()) * 10 + (s.last() as int - '0' as int)
    }
}

/// The integer that a decimal numeral with an optional `+` or `-` sign
/// denotes, or `None` if the text is not such a numeral.
pub open spec fn integer_value(s: Seq<char>) -> Option<int> {
    if s.len() > 0 && (s[0] == '-' || s[0] == '+') {
        let d = s.drop_first();
        if d.len() > 0 && all_digits(d) {
            Some(if s[0] == '-' { -digits_value(d) } else { digits_value(d) })
        } else {
            None
        }
    } else if s.len() > 0 && all_digits(s) {
        Some(digits_value(s))
    } else {
        None
    }
}

/// The numeral's value where it fits in an `isize`.
pub open spec fn isize_value(s: Seq<char>) -> Option<isize> {
    match integer_value(s) {
        Some(v) => if isize::MIN <= v <= isize::MAX {
            Some(v as isize)
        } else {
            None
        },
        None => None,
    }
}

/// Two integers separated by exactly one space.
pub open spec fn pair_value(line: Seq<char>) -> Option<(isize, isize)> {
    let parts = split_on(line, ' ');
    if parts.len() == 2 && isize_value(parts[0]) is Some && isize_value(parts[1]) is Some {
        Some((isize_value(parts[0])->0, isize_value(parts[1])->0))
    } else {
        None
    }
}

/// Every character of the row is a space or a cell character.
pub open spec fn row_ok(line: Seq<char>) -> bool {
    forall|i: int| 0 <= i < line.len() ==> (#[trigger] line[i] == ' ' || is_block_char(line[i]))
}

/// The cells of a row, spaces skipped.
pub open spec fn cells_of(line: Seq<char>) -> Seq<BlockType>
    decreases line.len(),
{
    if line.len() == 0 {
        Seq::empty()
    } else if line.last() == ' ' {
        cells_of(line.drop_last())
    } else {
        cells_of(line.drop_last()).push(block_of(line.last()))
    }
}

/// `c` is the first character of the row that is neither a space nor a
/// cell character.
pub open spec fn first_bad_char(line: Seq<char>, c: char) -> bool {
    exists|i: int|
        0 <= i < line.len() && line[i] == c && c != ' ' && !is_block_char(c) && row_ok(
            #[trigger] line.take(i),
        )
}

/// The number of rows that the height line announces (none for a negative
/// height).
pub open spec fn row_count(ls: Seq<Seq<char>>) -> int {
    let h = isize_value(ls[0])->0 as int;
    if h < 0 {
        0
    } else {
        h
    }
}

/// The header lines are there and well formed.
pub open spec fn header_ok(ls: Seq<Seq<char>>) -> bool {
    &&& ls.len() >= 3
    &&& isize_value(ls[0]) is Some
    &&& pair_value(ls[1]) is Some
    &&& pair_value(ls[2]) is Some
}

/// `k` is the first announced row that holds a character outside the
/// alphabet.
pub open spec fn first_bad_row_text(ls: Seq<Seq<char>>, k: int) -> bool {
    &&& 0 <= k < row_count(ls)
    &&& !row_ok(ls[3 + k])
    &&& forall|j: int| 0 <= j < k ==> row_ok(#[trigger] ls[3 + j])
}

/// The grid that the announced rows describe.
pub open spec fn grid_of(ls: Seq<Seq<char>>) -> Seq<Seq<BlockType>> {
    Seq::new(row_count(ls) as nat, |k: int| cells_of(ls[3 + k]))
}

pub open spec fn point_of(pair: (isize, isize)) -> Point {
    Point { x: pair.0, y: pair.1 }
}

/// Relies on std's `FromIterator<char>` for `String`: the string holds the
/// characters in order.
#[verifier::external_body]
fn string_of(chars: &Vec<char>) -> (r: String)
    ensures
        r@ == chars@,
{
    chars.iter().collect()
}

/// The characters of the text, carriage returns removed.
pub fn chars_without_cr(text: &str) -> (r: Vec<char>)
    ensures
        r@ == strip_cr(text@),
        r@.len() <= text@.len(),
{
    broadcast use vstd::string::axiom_spec_iter;

    let mut r: Vec<char> = Vec::new();
    for c in it: text.chars()
        invariant
            it.seq() == text@,
            r@ == strip_cr(text@.take(it.index() as int)),
            r@.len() <= it.index(),
    {
        assert(text@.take(it.index() + 1).drop_last() =~= text@.take(it.index() as int));
        if c != '\r' {
            r.push(c);
        }
    }
    assert(text@.take(text@.len() as int) =~= text@);
    r
}

/// Splits at every occurrence of `sep`.
pub fn split_chars(s: &Vec<char>, sep: char) -> (r: Vec<Vec<char>>)
    ensures
        r@.map_values(|v: Vec<char>| v@) == split_on(s@, sep),
        r@.len() <= s@.len() + 1,
        forall|k: int| 0 <= k < r@.len() ==> (#[trigger] r@[k])@.len() <= s@.len(),
{
    let mut done: Vec<Vec<char>> = Vec::new();
    let mut cur: Vec<char> = Vec::new();
    let mut i: usize = 0;
    while i < s.len()
        invariant
            0 <= i <= s@.len(),
            done@.map_values(|v: Vec<char>| v@).push(cur@) == split_on(s@.take(i as int), sep),
            done@.len() <= i,
            cur@.len() <= i,
            forall|k: int| 0 <= k < done@.len() ==> (#[trigger] done@[k])@.len() <= i,
        decreases s@.len() - i,
    {
        let c = s[i];
        let ghost before = done@.map_values(|v: Vec<char>| v@).push(cur@);
        assert(s@.take(i + 1).drop_last() =~= s@.take(i as int));
        if c == sep {
            done.push(cur);
            cur = Vec::new();
            assert(done@.map_values(|v: Vec<char>| v@).push(cur@) =~= before.push(Seq::empty()));
        } else {
            cur.push(c);
            assert(done@.map_values(|v: Vec<char>| v@).push(cur@) =~= before.update(
                before.len() - 1,
                before.last().push(c),
            ));
        }
        i = i + 1;
    }
    assert(s@.take(s@.len() as int) =~= s@);
    done.push(cur);
    assert(done@.map_values(|v: Vec<char>| v@) =~= split_on(s@, sep));
    done
}

proof fn lemma_digits_value_nonneg(t: Seq<char>)
    requires
        all_digits(t),
    ensures
        digits_value(t) >= 0,
    decreases t.len(),
{
    if t.len() > 0 {
        assert(all_digits(t.drop_last())) by {
            assert forall|k: int| 0 <= k < t.len() - 1 implies is_digit(#[trigger] t.drop_last()[k]) by {
                assert(t.drop_last()[k] == t[k]);
            }
        }
        lemma_digits_value_nonneg(t.drop_last());
        assert(is_digit(t[t.len() - 1]));
    }
}

proof fn lemma_digits_value_grows(s: Seq<char>, i: int, j: int)
    requires
        0 <= i <= j <= s.len(),
        all_digits(s),
    ensures
        0 <= digits_value(s.take(i)) <= digits_value(s.take(j)),
    decreases j,
{
    assert(all_digits(s.take(j))) by {
        assert forall|k: int| 0 <= k < j implies is_digit(#[trigger] s.take(j)[k]) by {
            assert(s.take(j)[k] == s[k]);
        }
    }
    lemma_digits_value_nonneg(s.take(j));
    if i < j {
        lemma_digits_value_grows(s, i, j - 1);
        assert(s.take(j).drop_last() =~= s.take(j - 1));
        assert(is_digit(s[j - 1]));
    }
}

/// Reads a decimal numeral with an optional sign; `None` where the text is no
/// numeral or its value does not fit in an `isize`.
pub fn parse_isize(s: &Vec<char>) -> (r: Option<isize>)
    ensures
        r == isize_value(s@),
{
    let n = s.len();
    if n == 0 {
        return None;
    }
    let first = s[0];
    let signed = first == '-' || first == '+';
    let negative = first == '-';
    let start: usize = if signed { 1 } else { 0 };
    if start == n {
        assert(s@.drop_first().len() == 0);
        return None;
    }
    let ghost d = s@.subrange(start as int, n as int);
    proof {
        if signed {
            assert(d =~= s@.drop_first());
        } else {
            assert(d =~= s@);
        }
    }
    let mut i: usize = start;
    while i < n
        invariant
            start <= i <= n,
            n == s@.len(),
            d == s@.subrange(start as int, n as int),
            n > 0,
            signed == (s@[0] == '-' || s@[0] == '+'),
            negative == (s@[0] == '-'),
            start == (if signed { 1usize } else { 0usize }),
            signed ==> d == s@.drop_first(),
            !signed ==> d == s@,
            d.len() > 0,
            forall|k: int| start <= k < i ==> is_digit(#[trigger] s@[k]),
        decreases n - i,
    {
        if !('0' <= s[i] && s[i] <= '9') {
            assert(!is_digit(d[i - start]));
            assert(!is_digit(s@[i as int]));
            assert(!all_digits(d));
            assert(!signed ==> !all_digits(s@));
            return None;
        }
        i = i + 1;
    }
    assert(all_digits(d)) by {
        assert forall|k: int| 0 <= k < d.len() implies is_digit(#[trigger] d[k]) by {
            assert(d[k] == s@[k + start]);
        }
    }
    let mut acc: isize = 0;
    let mut i: usize = start;
    while i < n
        invariant
            start <= i <= n,
            n == s@.len(),
            d == s@.subrange(start as int, n as int),
            n > 0,
            signed == (s@[0] == '-' || s@[0] == '+'),
            negative == (s@[0] == '-'),
            start == (if signed { 1usize } else { 0usize }),
            signed ==> d == s@.drop_first(),
            !signed ==> d == s@,
            d.len() > 0,
            all_digits(d),
            acc == (if negative { -digits_value(d.take(i - start)) } else { digits_value(
                d.take(i - start),
            ) }),
        decreases n - i,
    {
        let ghost k = i - start;
        assert(d.take(k + 1).drop_last() =~= d.take(k));
        assert(d[k] == s@[i as int]);
        assert(is_digit(d[k]));
        let digit = (s[i] as u32 - '0' as u32) as isize;
        assert(digit == d[k] as int - '0' as int);
        assert(digits_value(d.take(k + 1)) == digits_value(d.take(k)) * 10 + digit);
        proof {
            lemma_digits_value_grows(d, k, k + 1);
            lemma_digits_value_grows(d, k + 1, d.len() as int);
            assert(d.take(d.len() as int) =~= d);
        }
        assert(integer_value(s@) == Some(if negative { -digits_value(d) } else { digits_value(d) }));
        let scaled = match acc.checked_mul(10) {
            Some(v) => v,
            None => {
                return None;
            },
        };
        let next = if negative {
            scaled.checked_sub(digit)
        } else {
            scaled.checked_add(digit)
        };
        match next {
            Some(v) => {
                acc = v;
            },
            None => {
                return None;
            },
        }
        i = i + 1;
    }
    assert(d.take(d.len() as int) =~= d);
    Some(acc)
}

/// Reads a coordinate line: two integers separated by one space.
pub fn parse_line_to_tuple(line: &Vec<char>) -> (r: Result<(isize, isize), LevelCreationError>)
    ensures
        pair_value(line@) matches Some(p) ==> r == Ok::<(isize, isize), LevelCreationError>(p),
        pair_value(line@) is None ==> (r matches Err(LevelCreationError::LineParse(s)) && s@
            == line@),
{
    let parts = split_chars(line, ' ');
    let ghost ps = parts@.map_values(|v: Vec<char>| v@);
    if parts.len() != 2 {
        return Err(LevelCreationError::LineParse(string_of(line)));
    }
    assert(ps[0] == parts@[0]@ && ps[1] == parts@[1]@);
    let x = parse_isize(&parts[0]);
    let y = parse_isize(&parts[1]);
    match (x, y) {
        (Some(x), Some(y)) => Ok((x, y)),
        _ => Err(LevelCreationError::LineParse(string_of(line))),
    }
}

/// Reads a row of cells, skipping spaces.
pub fn parse_line_to_block_types(line: &Vec<char>) -> (r: Result<Vec<BlockType>, LevelCreationError>)
    ensures
        row_ok(line@) ==> (r matches Ok(v) && v@ == cells_of(line@)),
        !row_ok(line@) ==> (r matches Err(LevelCreationError::UnrecognizedBlock(c))
            && first_bad_char(line@, c)),
        r is Ok ==> row_ok(line@),
        r matches Ok(v) ==> v@.len() <= line@.len(),
{
    let mut cells: Vec<BlockType> = Vec::new();
    let mut i: usize = 0;
    while i < line.len()
        invariant
            0 <= i <= line@.len(),
            row_ok(line@.take(i as int)),
            cells@ == cells_of(line@.take(i as int)),
            cells@.len() <= i,
        decreases line@.len() - i,
    {
        let c = line[i];
        assert(line@.take(i + 1).drop_last() =~= line@.take(i as int));
        if c != ' ' {
            match BlockType::try_from_char(&c) {
                Some(b) => {
                    cells.push(b);
                },
                None => {
                    assert(first_bad_char(line@, c));
                    return Err(LevelCreationError::UnrecognizedBlock(c));
                },
            }
        }
        assert(row_ok(line@.take(i + 1))) by {
            assert forall|k: int| 0 <= k < i + 1 implies (#[trigger] line@.take(i + 1)[k] == ' '
                || is_block_char(line@.take(i + 1)[k])) by {
                if k < i {
                    assert(line@.take(i + 1)[k] == line@.take(i as int)[k]);
                }
            }
        }
        i = i + 1;
    }
    assert(line@.take(line@.len() as int) =~= line@);
    Ok(cells)
}

/// Reads a level from its text: a height line, the entry and the exit point,
/// then one line per row. Carriage returns are ignored, lines after the
/// announced rows too; a negative height announces no rows.
pub fn parse_level(text: &str) -> (r: Result<Level, LevelCreationError>)
    requires
        text@.len() < isize::MAX,
    ensures
        ({
            let ls = lines_of(text@);
            &&& ls.len() < 3 ==> r == Err::<Level, LevelCreationError>(
                LevelCreationError::InputTooShort,
            )
            &&& ls.len() >= 3 && isize_value(ls[0]) is None ==> (r matches Err(
                LevelCreationError::HeightParse(s),
            ) && s@ == ls[0])
            &&& ls.len() >= 3 && isize_value(ls[0]) is Some && pair_value(ls[1]) is None ==> (r
                matches Err(LevelCreationError::LineParse(s)) && s@ == ls[1])
            &&& ls.len() >= 3 && isize_value(ls[0]) is Some && pair_value(ls[1]) is Some
                && pair_value(ls[2]) is None ==> (r matches Err(LevelCreationError::LineParse(s))
                && s@ == ls[2])
            &&& header_ok(ls) && ls.len() < 3 + row_count(ls) ==> r == Err::<
                Level,
                LevelCreationError,
            >(LevelCreationError::InputTooShort)
            &&& header_ok(ls) && ls.len() >= 3 + row_count(ls) && (exists|k: int|
                first_bad_row_text(ls, k)) ==> (r matches Err(
                LevelCreationError::UnrecognizedBlock(c),
            ) && exists|k: int| first_bad_row_text(ls, k) && first_bad_char(ls[3 + k], c))
            &&& header_ok(ls) && ls.len() >= 3 + row_count(ls) && (forall|k: int|
                0 <= k < row_count(ls) ==> row_ok(#[trigger] ls[3 + k])) ==> new_outcome(
                grid_of(ls),
                point_of(pair_value(ls[1])->0),
                point_of(pair_value(ls[2])->0),
                r,
            )
        }),
{
    let chars = chars_without_cr(text);
    let lines = split_chars(&chars, '\n');
    let ghost ls = lines_of(text@);
    assert(ls == lines@.map_values(|v: Vec<char>| v@));
    if lines.len() < 3 {
        return Err(LevelCreationError::InputTooShort);
    }
    assert(ls[0] == lines@[0]@ && ls[1] == lines@[1]@ && ls[2] == lines@[2]@);
    let height = match parse_isize(&lines[0]) {
        Some(h) => h,
        None => {
            return Err(LevelCreationError::HeightParse(string_of(&lines[0])));
        },
    };
    let start = match parse_line_to_tuple(&lines[1]) {
        Ok(p) => p,
        Err(e) => {
            return Err(e);
        },
    };
    let finish = match parse_line_to_tuple(&lines[2]) {
        Ok(p) => p,
        Err(e) => {
            return Err(e);
        },
    };
    let count: usize = if height < 0 {
        0
    } else {
        height as usize
    };
    assert(count == row_count(ls));
    assert(header_ok(ls));
    if lines.len() - 3 < count {
        return Err(LevelCreationError::InputTooShort);
    }
    let mut grid: Vec<Vec<BlockType>> = Vec::new();
    let mut k: usize = 0;
    while k < count
        invariant
            0 <= k <= count,
            count == row_count(ls),
            header_ok(ls),
            ls == lines_of(text@),
            ls.len() == lines@.len(),
            3 + count <= lines@.len(),
            ls == lines@.map_values(|v: Vec<char>| v@),
            lines@.len() <= text@.len() + 1,
            forall|j: int| 0 <= j < lines@.len() ==> (#[trigger] lines@[j])@.len() <= text@.len(),
            text@.len() < isize::MAX,
            rows_of(grid@) =~= Seq::new(k as nat, |j: int| cells_of(ls[3 + j])),
            forall|j: int| 0 <= j < grid@.len() ==> (#[trigger] grid@[j])@.len() < isize::MAX,
            forall|j: int| 0 <= j < k ==> row_ok(#[trigger] ls[3 + j]),
        decreases count - k,
    {
        assert(ls[3 + k as int] == lines@[3 + k as int]@);
        match parse_line_to_block_types(&lines[3 + k]) {
            Ok(row) => {
                let ghost before = rows_of(grid@);
                grid.push(row);
                assert(rows_of(grid@) =~= before.push(cells_of(ls[3 + k as int])));
            },
            Err(e) => {
                assert(!row_ok(ls[3 + k as int]));
                assert(first_bad_row_text(ls, k as int));
                return Err(e);
            },
        }
        k = k + 1;
    }
    assert(rows_of(grid@) =~= grid_of(ls));
    proof {
        if exists|j: int| first_bad_row_text(ls, j) {
            let j = choose|j: int| first_bad_row_text(ls, j);
            assert(row_ok(ls[3 + j]));
        }
    }
    Level::new(grid, Point::new_from_tuple(start), Point::new_from_tuple(finish))
}

} // verus!
