use vstd::prelude::*;

use crate::error::EditError;
use crate::row::{lemma_insert_delete_inverse, raw_index_at, render_of, Row};
use crate::text::{chars_of, contains, find_chars, first_occurrence, push_char, string_of};

verus! {

/// Cuts `t` at every newline: one piece more than there are newlines.
pub open spec fn split_on_newlines(t: Seq<char>) -> Seq<Seq<char>>
    decreases t.len(),
{
    if t.len() == 0 {
        seq![Seq::empty()]
    } else {
        let init = split_on_newlines(t.drop_last());
        if t.last() == '\n' {
            init.push(Seq::empty())
        } else {
            init.update(init.len() - 1, init.last().push(t.last()))
        }
    }
}

/// A line that ended in a carriage return before its newline loses that return.
pub open spec fn strip_cr(line: Seq<char>) -> Seq<char> {
    if line.len() > 0 && line.last() == '\r' {
        line.drop_last()
    } else {
        line
    }
}

/// The lines of a text: it is cut at each `\n` (a `\r` just before it goes with the line
/// ending), a final line ending adds no empty line, and an empty text is one empty line.
pub open spec fn text_lines(t: Seq<char>) -> Seq<Seq<char>> {
    let pieces = split_on_newlines(t);
    let ended = pieces.drop_last().map_values(|l: Seq<char>| strip_cr(l));
    if pieces.len() > 1 && pieces.last().len() == 0 {
        ended
    } else {
        ended.push(pieces.last())
    }
}

/// The lines joined with one newline between each two.
pub open spec fn join_lines(lines: Seq<Seq<char>>) -> Seq<char>
    decreases lines.len(),
{
    if lines.len() == 0 {
        Seq::empty()
    } else if lines.len() == 1 {
        lines[0]
    } else {
        join_lines(lines.drop_last()) + seq!['\n'] + lines.last()
    }
}

/// Whether `t` holds a carriage return directly followed by a newline.
pub open spec fn has_crlf(t: Seq<char>) -> bool {
    exists|i: int| 0 <= i < t.len() - 1 && #[trigger] t[i] == '\r' && t[i + 1] == '\n'
}

proof fn lemma_split_nonempty(t: Seq<char>)
    ensures
        split_on_newlines(t).len() >= 1,
        split_on_newlines(t).last().len() > 0 ==> t.len() > 0 && split_on_newlines(t).last().last()
            == t.last(),
        t.len() > 0 && t.last() != '\n' ==> split_on_newlines(t).last().len() > 0,
    decreases t.len(),
{
    if t.len() > 0 {
        lemma_split_nonempty(t.drop_last());
    }
}

proof fn lemma_join_split(t: Seq<char>)
    ensures
        join_lines(split_on_newlines(t)) == t,
    decreases t.len(),
{
    if t.len() > 0 {
        let p = t.drop_last();
        lemma_join_split(p);
        lemma_split_nonempty(p);
        let sp = split_on_newlines(p);
        let s = split_on_newlines(t);
        if t.last() == '\n' {
            assert(s.drop_last() =~= sp);
        } else if sp.len() == 1 {
            assert(s[0] == sp[0].push(t.last()));
        } else {
            assert(s.drop_last() =~= sp.drop_last());
        }
        assert(t =~= p.push(t.last()));
    }
}

proof fn lemma_split_no_trailing_cr(t: Seq<char>)
    requires
        !has_crlf(t),
    ensures
        forall|k: int|
            0 <= k < split_on_newlines(t).len() - 1 ==> strip_cr(#[trigger] split_on_newlines(t)[k])
                == split_on_newlines(t)[k],
    decreases t.len(),
{
    if t.len() > 0 {
        let p = t.drop_last();
        assert(!has_crlf(p)) by {
            if has_crlf(p) {
                let i = choose|i: int| 0 <= i < p.len() - 1 && #[trigger] p[i] == '\r' && p[i + 1] == '\n';
                assert(t[i] == '\r' && t[i + 1] == '\n');
            }
        }
        lemma_split_no_trailing_cr(p);
        lemma_split_nonempty(p);
        let sp = split_on_newlines(p);
        if t.last() == '\n' && sp.last().len() > 0 {
            assert(t[t.len() - 2] == p.last());
        }
    }
}

/// Reading a text that does not end in a newline and holds no `\r\n`, then writing it
/// back, gives the same text.
pub proof fn lemma_text_round_trip(t: Seq<char>)
    requires
        !(t.len() > 0 && t.last() == '\n'),
        !has_crlf(t),
    ensures
        join_lines(text_lines(t)) == t,
{
    let s = split_on_newlines(t);
    lemma_split_nonempty(t);
    lemma_split_no_trailing_cr(t);
    lemma_join_split(t);
    if t.len() == 0 {
        assert(text_lines(t) =~= s);
    } else {
        assert(text_lines(t) =~= s);
    }
}

/// The lines after `ch` is put before column `c` of line `r`.
pub open spec fn lines_with_char(lines: Seq<Seq<char>>, r: int, c: int, ch: char) -> Seq<Seq<char>> {
    lines.update(r, lines[r].insert(c, ch))
}

/// The lines after the character at column `c` of line `r` is taken out.
pub open spec fn lines_without_char(lines: Seq<Seq<char>>, r: int, c: int) -> Seq<Seq<char>> {
    lines.update(r, lines[r].remove(c))
}

/// The lines after line `r` is cut in two before column `c`.
pub open spec fn lines_split_at(lines: Seq<Seq<char>>, r: int, c: int) -> Seq<Seq<char>> {
    lines.update(r, lines[r].take(c)).insert(r + 1, lines[r].skip(c))
}

/// The lines after line `r` is appended to line `r - 1` and taken out.
pub open spec fn lines_joined_at(lines: Seq<Seq<char>>, r: int) -> Seq<Seq<char>> {
    lines.update(r - 1, lines[r - 1] + lines[r]).remove(r)
}

/// Putting a character into a line and taking it out again at the same column gives the
/// line back.
pub proof fn lemma_char_insert_delete_inverse(lines: Seq<Seq<char>>, r: int, c: int, ch: char)
    requires
        0 <= r < lines.len(),
        0 <= c <= lines[r].len(),
    ensures
        lines_without_char(lines_with_char(lines, r, c, ch), r, c) == lines,
{
    lemma_insert_delete_inverse(lines[r], c, ch);
    assert(lines_without_char(lines_with_char(lines, r, c, ch), r, c) =~= lines);
}

/// Cutting line `r` at column `c` and then joining line `r + 1` to the one before it
/// gives the lines back.
pub proof fn lemma_split_join_inverse(lines: Seq<Seq<char>>, r: int, c: int)
    requires
        0 <= r < lines.len(),
        0 <= c <= lines[r].len(),
    ensures
        lines_joined_at(lines_split_at(lines, r, c), r + 1) == lines,
{
    assert(lines[r].take(c) + lines[r].skip(c) =~= lines[r]);
    assert(lines_joined_at(lines_split_at(lines, r, c), r + 1) =~= lines);
}

/// An open document: its rows in line order, the name it is saved under (none for a
/// document never saved), and whether it changed since it was last saved.
pub struct Content {
    pub filename: Option<String>,
    pub rows: Vec<Row>,
    pub dirty: bool,
}

impl Content {
    /// The raw text of each row, in order.
    pub open spec fn lines(&self) -> Seq<Seq<char>> {
        self.rows@.map_values(|r: Row| r@)
    }

    /// Every row's rendered form is in step with its raw form.
    pub open spec fn wf(&self) -> bool {
        forall|i: int| 0 <= i < self.rows@.len() ==> (#[trigger] self.rows@[i]).wf()
    }

    /// A named document holding `rows`, with nothing to save.
    pub fn new(filename: String, rows: Vec<Row>) -> (c: Content)
        ensures
            c.filename == Some(filename),
            c.rows == rows,
            !c.dirty,
    {
        Content { filename: Some(filename), rows, dirty: false }
    }

    /// Reads a document from its text; see `text_lines` for where lines end.
    pub fn from_text(filename: String, text: &String) -> (c: Content)
        ensures
            c.filename == Some(filename),
            c.lines() == text_lines(text@),
            c.wf(),
            !c.dirty,
    {
        let mut rows: Vec<Row> = Vec::new();
        let mut cur: Vec<char> = Vec::new();
        for ch in it: text.as_str().chars()
            invariant
                it.seq() == text@,
                rows@.map_values(|r: Row| r@) == split_on_newlines(
                    text@.take(it.index()),
                ).drop_last().map_values(|l: Seq<char>| strip_cr(l)),
                cur@ == split_on_newlines(text@.take(it.index())).last(),
                forall|i: int| 0 <= i < rows@.len() ==> (#[trigger] rows@[i]).wf(),
        {
            let ghost t = text@.take(it.index());
            let ghost t1 = text@.take(it.index() + 1);
            proof {
                assert(t1.drop_last() =~= t);
                assert(t1.last() == ch);
                lemma_split_nonempty(t);
            }
            if ch == '\n' {
                let ghost line = cur@;
                let n = cur.len();
                if n > 0 && cur[n - 1] == '\r' {
                    cur.pop();
                }
                assert(cur@ =~= strip_cr(line));
                let s = string_of(&cur);
                let row = Row::new(s.as_str());
                let ghost before = rows@;
                rows.push(row);
                cur = Vec::new();
                proof {
                    let sp = split_on_newlines(t);
                    assert(split_on_newlines(t1).drop_last() =~= sp);
                    assert(sp =~= sp.drop_last().push(line));
                    assert(rows@ =~= before.push(row));
                    assert(rows@.map_values(|r: Row| r@) =~= before.map_values(|r: Row| r@).push(
                        row@,
                    ));
                    assert(sp.map_values(|l: Seq<char>| strip_cr(l)) =~= sp.drop_last().map_values(
                        |l: Seq<char>| strip_cr(l),
                    ).push(strip_cr(line)));
                    assert(cur@ =~= split_on_newlines(t1).last());
                }
            } else {
                cur.push(ch);
                proof {
                    let sp = split_on_newlines(t);
                    assert(split_on_newlines(t1).drop_last() =~= sp.drop_last());
                }
            }
        }
        proof {
            assert(text@.take(text@.len() as int) =~= text@);
            lemma_split_nonempty(text@);
        }
        if cur.len() > 0 || rows.len() == 0 {
            let s = string_of(&cur);
            let row = Row::new(s.as_str());
            let ghost before = rows@;
            rows.push(row);
            proof {
                assert(rows@.map_values(|r: Row| r@) =~= before.map_values(|r: Row| r@).push(
                    row@,
                ));
                assert(rows@.map_values(|r: Row| r@) =~= text_lines(text@));
            }
        } else {
            assert(rows@.map_values(|r: Row| r@) =~= text_lines(text@));
        }
        Content { filename: Some(filename), rows, dirty: false }
    }

    /// The row at index `n`, if there is one.
    pub fn row_from_index(&self, n: usize) -> (r: Option<&Row>)
        ensures
            n < self.rows@.len() ==> r == Some(&self.rows@[n as int]),
            n >= self.rows@.len() ==> r is None,
    {
        if n < self.rows.len() {
            Some(&self.rows[n])
        } else {
            None
        }
    }

    /// The text of the document: the rows joined by newlines, with no final newline.
    pub fn rows_to_string(&self) -> (s: String)
        ensures
            s@ == join_lines(self.lines()),
    {
        let mut s = String::new();
        let n = self.rows.len();
        let mut i: usize = 0;
        while i < n
            invariant
                n == self.rows@.len(),
                i <= n,
                s@ == join_lines(self.lines().take(i as int)),
            decreases n - i,
        {
            let ghost before = self.lines().take(i as int);
            if i > 0 {
                push_char(&mut s, '\n');
            }
            s.append(self.rows[i].raw.as_str());
            proof {
                let after = self.lines().take(i + 1);
                assert(after.drop_last() =~= before);
                if i == 0 {
                    assert(s@ =~= after[0]);
                } else {
                    assert(s@ =~= join_lines(before) + seq!['\n'] + after.last());
                }
            }
            i = i + 1;
        }
        proof {
            assert(self.lines().take(n as int) =~= self.lines());
        }
        s
    }

    /// Types `c` at column `col_idx` of row `row_idx`; on the line just past the last
    /// row it starts a new row holding `c`.
    pub fn insert_char(&mut self, row_idx: usize, col_idx: usize, c: char) -> (res: Result<
        (),
        EditError,
    >)
        requires
            old(self).wf(),
        ensures
            final(self).wf(),
            row_idx < old(self).lines().len() && col_idx <= old(self).lines()[row_idx as int].len()
                ==> res is Ok && final(self).lines() == lines_with_char(
                old(self).lines(),
                row_idx as int,
                col_idx as int,
                c,
            ),
            row_idx < old(self).lines().len() && col_idx > old(self).lines()[row_idx as int].len()
                ==> res == Err::<(), EditError>(EditError::IndexError(col_idx)),
            row_idx == old(self).lines().len() ==> res is Ok && final(self).lines() == old(
                self,
            ).lines().push(seq![c]),
            row_idx > old(self).lines().len() ==> res == Err::<(), EditError>(
                EditError::RowNotFound(row_idx),
            ),
            res is Ok ==> final(self).dirty && final(self).filename == old(self).filename,
            res is Err ==> final(self).rows@ == old(self).rows@ && final(self).dirty == old(
                self,
            ).dirty && final(self).filename == old(self).filename,
    {
        let n = self.rows.len();
        if row_idx < n {
            let ghost before = self.rows@;
            let res = self.rows[row_idx].insert(col_idx, c);
            if res.is_ok() {
                self.dirty = true;
            }
            proof {
                if res is Ok {
                    assert(self.lines() =~= lines_with_char(
                        before.map_values(|r: Row| r@),
                        row_idx as int,
                        col_idx as int,
                        c,
                    ));
                } else {
                    assert(self.rows@ =~= before);
                }
            }
            res
        } else if row_idx == n {
            let mut buf: Vec<char> = Vec::new();
            buf.push(c);
            let s = string_of(&buf);
            let row = Row::new(s.as_str());
            let ghost before = self.rows@;
            self.rows.push(row);
            self.dirty = true;
            proof {
                assert(self.lines() =~= before.map_values(|r: Row| r@).push(seq![c]));
            }
            Ok(())
        } else {
            Err(EditError::RowNotFound(row_idx))
        }
    }

    /// Cuts row `row_idx` in two before column `col_idx`; past the last row it adds an
    /// empty row at the end.
    pub fn insert_new_line(&mut self, row_idx: usize, col_idx: usize) -> (res: Result<
        (),
        EditError,
    >)
        requires
            old(self).wf(),
        ensures
            final(self).wf(),
            row_idx < old(self).lines().len() && col_idx <= old(self).lines()[row_idx as int].len()
                ==> res is Ok && final(self).lines() == lines_split_at(
                old(self).lines(),
                row_idx as int,
                col_idx as int,
            ),
            row_idx < old(self).lines().len() && col_idx > old(self).lines()[row_idx as int].len()
                ==> res == Err::<(), EditError>(EditError::IndexError(col_idx)),
            row_idx >= old(self).lines().len() ==> res is Ok && final(self).lines() == old(
                self,
            ).lines().push(Seq::empty()),
            res is Ok ==> final(self).dirty && final(self).filename == old(self).filename,
            res is Err ==> final(self).rows@ == old(self).rows@ && final(self).dirty == old(
                self,
            ).dirty && final(self).filename == old(self).filename,
    {
        let n = self.rows.len();
        let ghost before = self.rows@;
        if row_idx < n {
            match self.rows[row_idx].split(col_idx) {
                Ok((first, second)) => {
                    self.rows[row_idx] = first;
                    self.rows.insert(row_idx + 1, second);
                    self.dirty = true;
                    proof {
                        assert(self.lines() =~= lines_split_at(
                            before.map_values(|r: Row| r@),
                            row_idx as int,
                            col_idx as int,
                        ));
                    }
                    Ok(())
                },
                Err(e) => Err(e),
            }
        } else {
            let empty = String::new();
            let row = Row::new(empty.as_str());
            self.rows.push(row);
            self.dirty = true;
            proof {
                assert(self.lines() =~= before.map_values(|r: Row| r@).push(Seq::empty()));
            }
            Ok(())
        }
    }

    /// Removes the character at column `col_idx` of row `row_idx`.
    pub fn delete_char(&mut self, row_idx: usize, col_idx: usize) -> (res: Result<
        (),
        EditError,
    >)
        requires
            old(self).wf(),
        ensures
            final(self).wf(),
            row_idx < old(self).lines().len() && col_idx < old(self).lines()[row_idx as int].len()
                ==> res is Ok && final(self).lines() == lines_without_char(
                old(self).lines(),
                row_idx as int,
                col_idx as int,
            ),
            row_idx < old(self).lines().len() && col_idx >= old(self).lines()[row_idx as int].len()
                ==> res == Err::<(), EditError>(EditError::IndexError(col_idx)),
            row_idx >= old(self).lines().len() ==> res == Err::<(), EditError>(
                EditError::RowNotFound(row_idx),
            ),
            res is Ok ==> final(self).dirty && final(self).filename == old(self).filename,
            res is Err ==> final(self).rows@ == old(self).rows@ && final(self).dirty == old(
                self,
            ).dirty && final(self).filename == old(self).filename,
    {
        if row_idx < self.rows.len() {
            let ghost before = self.rows@;
            let res = self.rows[row_idx].delete(col_idx);
            if res.is_ok() {
                self.dirty = true;
            }
            proof {
                if res is Ok {
                    assert(self.lines() =~= lines_without_char(
                        before.map_values(|r: Row| r@),
                        row_idx as int,
                        col_idx as int,
                    ));
                } else {
                    assert(self.rows@ =~= before);
                }
            }
            res
        } else {
            Err(EditError::RowNotFound(row_idx))
        }
    }

    /// Appends row `row_idx` to the row before it and removes it; nothing to do for the
    /// first row.
    pub fn concatenate_previous_row(&mut self, row_idx: usize) -> (res: Result<(), EditError>)
        requires
            old(self).wf(),
        ensures
            final(self).wf(),
            row_idx == 0 ==> res is Ok && final(self).rows@ == old(self).rows@ && final(self).dirty
                == old(self).dirty && final(self).filename == old(self).filename,
            0 < row_idx < old(self).lines().len() ==> res is Ok && final(self).lines()
                == lines_joined_at(old(self).lines(), row_idx as int) && final(self).dirty
                && final(self).filename == old(self).filename,
            0 < row_idx && row_idx >= old(self).lines().len() ==> res == Err::<(), EditError>(
                EditError::OutOfRange(row_idx),
            ) && final(self).rows@ == old(self).rows@ && final(self).dirty == old(self).dirty
                && final(self).filename == old(self).filename,
    {
        if row_idx == 0 {
            Ok(())
        } else if row_idx < self.rows.len() {
            let ghost before = self.rows@;
            let row = self.rows.remove(row_idx);
            self.rows[row_idx - 1].raw.append(row.raw.as_str());
            self.rows[row_idx - 1].update_render();
            self.dirty = true;
            proof {
                assert(self.lines() =~= lines_joined_at(
                    before.map_values(|r: Row| r@),
                    row_idx as int,
                ));
            }
            Ok(())
        } else {
            Err(EditError::OutOfRange(row_idx))
        }
    }

    /// The first match of `query` in the rendered rows, top to bottom and leftmost in its
    /// row, as a row index and the raw column that the match starts in.
    pub fn find(&self, query: &String) -> (r: Option<(usize, usize)>)
        requires
            self.wf(),
        ensures
            r is None <==> forall|i: int|
                0 <= i < self.lines().len() ==> !contains(
                    render_of(#[trigger] self.lines()[i]),
                    query@,
                ),
            r matches Some((row, col)) ==> {
                &&& row < self.lines().len()
                &&& forall|i: int|
                    0 <= i < row ==> !contains(render_of(#[trigger] self.lines()[i]), query@)
                &&& exists|k: int|
                    first_occurrence(render_of(self.lines()[row as int]), query@, k) && raw_index_at(
                        self.lines()[row as int],
                        k as nat,
                        col as nat,
                    )
            },
    {
        let needle = chars_of(query.as_str());
        let n = self.rows.len();
        let mut i: usize = 0;
        while i < n
            invariant
                n == self.lines().len(),
                self.wf(),
                needle@ == query@,
                i <= n,
                forall|j: int|
                    0 <= j < i ==> !contains(render_of(#[trigger] self.lines()[j]), query@),
            decreases n - i,
        {
            let row = &self.rows[i];
            let hay = chars_of(row.render.as_str());
            assert(self.lines()[i as int] == row@);
            match find_chars(&hay, &needle) {
                Some(k) => {
                    let col = row.convert_index_render_to_raw(k);
                    return Some((i, col));
                },
                None => {},
            }
            i = i + 1;
        }
        None
    }

    /// Whether the document has no name yet.
    pub fn is_phantom(&self) -> (b: bool)
        ensures
            b == self.filename is None,
    {
        self.filename.is_none()
    }
}

impl Default for Content {
    /// An unnamed, empty document.
    fn default() -> (c: Content)
        ensures
            c.filename is None,
            c.rows@.len() == 0,
            !c.dirty,
    {
        Content { filename: None, rows: Vec::new(), dirty: false }
    }
}

} // verus!
