use vstd::prelude::*;

verus! {

/// A place in a source text: the number of characters before it, the number
/// of line breaks before it, and the number of characters since the last line
/// break.
#[derive(Clone, Copy, Debug, PartialEq, Eq, Structural)]
pub struct SourcePosition {
    pub index: usize,
    pub line: usize,
    pub col: usize,
}

impl SourcePosition {
    pub fn new(index: usize, line: usize, col: usize) -> (p: SourcePosition)
        ensures
            p.index == index,
            p.line == line,
            p.col == col,
    {
        SourcePosition { index, line, col }
    }
}

/// The number of line breaks among the first `i` characters of `src`.
pub open spec fn line_at(src: Seq<char>, i: int) -> nat
    decreases i,
{
    if i <= 0 {
        0
    } else if src[i - 1] == '\n' {
        line_at(src, i - 1) + 1
    } else {
        line_at(src, i - 1)
    }
}

/// The number of characters between the last line break before `i` (or the
/// start of `src`) and `i`.
pub open spec fn col_at(src: Seq<char>, i: int) -> nat
    decreases i,
{
    if i <= 0 {
        0
    } else if src[i - 1] == '\n' {
        0
    } else {
        col_at(src, i - 1) + 1
    }
}

/// The position of the `i`-th character of `src`.
pub open spec fn position_at(src: Seq<char>, i: int) -> SourcePosition {
    SourcePosition { index: i as usize, line: line_at(src, i) as usize, col: col_at(src, i) as usize }
}

pub proof fn lemma_line_col_bounded(src: Seq<char>, i: int)
    requires
        0 <= i,
    ensures
        line_at(src, i) <= i,
        col_at(src, i) <= i,
    decreases i,
{
    if i > 0 {
        lemma_line_col_bounded(src, i - 1);
    }
}

/// Going forward in a text the line never goes back, and while it stays the
/// same the column grows by one per character.
pub proof fn lemma_line_col_forward(src: Seq<char>, i: int, j: int)
    requires
        0 <= i <= j,
    ensures
        line_at(src, i) <= line_at(src, j),
        line_at(src, i) == line_at(src, j) ==> col_at(src, j) == col_at(src, i) + (j - i),
    decreases j - i,
{
    if j > i {
        lemma_line_col_forward(src, i, j - 1);
    }
}

/// Two different places of one text never share both their line and their
/// column: a line and a column name at most one place.
pub proof fn lemma_places_are_distinct(src: Seq<char>, i: int, j: int)
    requires
        0 <= i,
        0 <= j,
        i != j,
    ensures
        line_at(src, i) != line_at(src, j) || col_at(src, i) != col_at(src, j),
{
    if i < j {
        lemma_line_col_forward(src, i, j);
    } else {
        lemma_line_col_forward(src, j, i);
    }
}

/// The place of the character of `source` at `index`, where `index` may also
/// be the length of `source` (the place just after its last character);
/// `None` for an index past that.
pub fn position_of(source: &str, index: usize) -> (p: Option<SourcePosition>)
    ensures
        match p {
            Some(q) => index <= source@.len() && q == position_at(source@, index as int),
            None => index > source@.len(),
        },
{
    let chars = crate::document::chars_of(source);
    if index > chars.len() {
        return None;
    }
    let (line, col) = advance_position_to(&chars, 0, index, 0, 0);
    proof {
        lemma_line_col_bounded(source@, index as int);
    }
    Some(SourcePosition { index, line, col })
}

/// Line and column of `i + 1`, from those of `i`.
pub fn advance_position(src: &Vec<char>, i: usize, line: usize, col: usize) -> (next: (usize, usize))
    requires
        i < src@.len(),
        line == line_at(src@, i as int),
        col == col_at(src@, i as int),
    ensures
        next.0 == line_at(src@, i + 1),
        next.1 == col_at(src@, i + 1),
{
    proof {
        vstd::std_specs::vec::axiom_spec_len(src);
        lemma_line_col_bounded(src@, i as int);
    }
    if src[i] == '\n' {
        (line + 1, 0)
    } else {
        (line, col + 1)
    }
}

/// Line and column of `to`, from those of `from`.
pub fn advance_position_to(src: &Vec<char>, from: usize, to: usize, line: usize, col: usize) -> (next: (usize, usize))
    requires
        from <= to <= src@.len(),
        line == line_at(src@, from as int),
        col == col_at(src@, from as int),
    ensures
        next.0 == line_at(src@, to as int),
        next.1 == col_at(src@, to as int),
{
    let mut i = from;
    let mut l = line;
    let mut c = col;
    while i < to
        invariant
            from <= i <= to <= src@.len(),
            l == line_at(src@, i as int),
            c == col_at(src@, i as int),
        decreases to - i,
    {
        let (l2, c2) = advance_position(src, i, l, c);
        l = l2;
        c = c2;
        i += 1;
    }
    (l, c)
}

} // verus!
