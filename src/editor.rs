use vstd::prelude::*;

use crate::content::{
    lines_joined_at, lines_split_at, lines_with_char, lines_without_char, text_lines, Content,
};
use crate::error::EditError;
use crate::row::{lemma_render_len, render_col, render_of, visible_part, Row};
use crate::QUIT_TIMES;

verus! {

/// Size of the text area, in screen columns and rows.
pub struct EditorConfig {
    pub cols: usize,
    pub rows: usize,
}

impl EditorConfig {
    pub fn new(cols: usize, rows: usize) -> (c: EditorConfig)
        ensures
            c.cols == cols,
            c.rows == rows,
    {
        EditorConfig { cols, rows }
    }
}

/// A cursor movement command.
#[derive(Debug, Clone, Copy, PartialEq, Eq, Structural)]
pub enum Movement {
    Up,
    Down,
    Left,
    Right,
    PageUp,
    PageDown,
    Home,
    End,
}

/// What one screen line of the text area shows.
pub enum ScreenLine {
    /// The visible part of a document row.
    Text(String),
    /// The line that carries the welcome message on an empty document.
    Welcome,
    /// A line below the end of the document.
    Filler,
}

/// The smaller of two integers.
pub open spec fn min_int(a: int, b: int) -> int {
    if a <= b {
        a
    } else {
        b
    }
}

/// The editing session around a document: the cursor in raw coordinates, its rendered
/// column, and the first row and rendered column on screen.
pub struct Editor {
    pub config: EditorConfig,
    pub cursor_x: usize,
    pub cursor_y: usize,
    pub render_x: usize,
    pub content: Content,
    pub row_offset: usize,
    pub col_offset: usize,
    pub quit_times: usize,
}

impl Editor {
    /// The raw text of each row of the document.
    pub open spec fn lines(&self) -> Seq<Seq<char>> {
        self.content.lines()
    }

    /// Length of row `y`; the line just past the last row counts as empty.
    pub open spec fn row_len(&self, y: int) -> nat {
        if 0 <= y < self.lines().len() {
            self.lines()[y].len()
        } else {
            0
        }
    }

    /// The cursor stands on a row of the document, or on the line just past the last
    /// one, and never past the end of its row.
    pub open spec fn inv(&self) -> bool {
        &&& self.content.wf()
        &&& self.cursor_y <= self.lines().len()
        &&& self.cursor_x <= self.row_len(self.cursor_y as int)
    }

    /// Where a movement takes the cursor, as (row, column), before the column is
    /// clamped to its row.
    pub open spec fn moved(&self, m: Movement) -> (int, int) {
        let y = self.cursor_y as int;
        let x = self.cursor_x as int;
        let n = self.lines().len() as int;
        match m {
            Movement::Up => if y > 0 {
                (y - 1, min_int(x, self.row_len(y - 1) as int))
            } else {
                (y, x)
            },
            Movement::Down => if y < n {
                (y + 1, min_int(x, self.row_len(y + 1) as int))
            } else {
                (y, x)
            },
            Movement::Left => if x > 0 {
                (y, x - 1)
            } else if y > 0 {
                (y - 1, self.row_len(y - 1) as int)
            } else {
                (y, x)
            },
            Movement::Right => if y < n && x < self.row_len(y) {
                (y, x + 1)
            } else if y < n {
                (y + 1, 0)
            } else {
                (y, x)
            },
            Movement::PageUp => (min_int(self.row_offset as int, n), x),
            Movement::PageDown => if self.config.rows > 0 {
                (min_int(self.row_offset + self.config.rows - 1, n), x)
            } else {
                (min_int(self.row_offset as int, n), x)
            },
            Movement::Home => (y, 0),
            Movement::End => (y, self.row_len(y) as int),
        }
    }

    /// Where a movement leaves the cursor: the move, then the column clamped to the
    /// length of the row it landed on.
    pub open spec fn cursor_after(&self, m: Movement) -> (int, int) {
        let (y, x) = self.moved(m);
        (y, min_int(x, self.row_len(y) as int))
    }

    /// This session with the cursor put at (row, column) `at`.
    pub open spec fn with_cursor(self, at: (int, int)) -> Editor {
        Editor { cursor_y: at.0 as usize, cursor_x: at.1 as usize, ..self }
    }

    /// This session after the movements `ms`, in order.
    pub open spec fn after_moves(self, ms: Seq<Movement>) -> Editor
        decreases ms.len(),
    {
        if ms.len() == 0 {
            self
        } else {
            self.with_cursor(self.cursor_after(ms[0])).after_moves(ms.skip(1))
        }
    }

    /// One movement keeps the cursor on a row, or on the line past the last, and never
    /// past the end of its row.
    pub proof fn lemma_move_keeps_cursor_in_row(self, m: Movement)
        requires
            self.inv(),
        ensures
            self.with_cursor(self.cursor_after(m)).inv(),
    {
        let (y, x) = self.cursor_after(m);
        assert(self.content.rows.len() == self.content.rows@.len());
        assert(0 <= y <= self.lines().len());
        self.lemma_row_len_fits(y);
        assert(0 <= x <= self.row_len(y));
        let e = self.with_cursor((y, x));
        assert(e.lines() == self.lines());
        assert(e.row_len(y) == self.row_len(y));
    }

    /// After any sequence of movements, the cursor column is at most the length of the
    /// row the cursor is on.
    pub proof fn lemma_moves_keep_cursor_in_row(self, ms: Seq<Movement>)
        requires
            self.inv(),
        ensures
            self.after_moves(ms).inv(),
            self.after_moves(ms).cursor_x <= self.after_moves(ms).row_len(
                self.after_moves(ms).cursor_y as int,
            ),
        decreases ms.len(),
    {
        if ms.len() > 0 {
            self.lemma_move_keeps_cursor_in_row(ms[0]);
            self.with_cursor(self.cursor_after(ms[0])).lemma_moves_keep_cursor_in_row(ms.skip(1));
        }
    }

    /// A session on an empty, unnamed document, with the cursor and view at the origin.
    pub fn new(config: EditorConfig) -> (e: Editor)
        ensures
            e.inv(),
            e.config == config,
            e.lines().len() == 0,
            e.content.filename is None,
            !e.content.dirty,
            e.cursor_x == 0 && e.cursor_y == 0 && e.render_x == 0,
            e.row_offset == 0 && e.col_offset == 0,
            e.quit_times == QUIT_TIMES,
    {
        Editor {
            config,
            cursor_x: 0,
            cursor_y: 0,
            render_x: 0,
            content: Content::default(),
            row_offset: 0,
            col_offset: 0,
            quit_times: QUIT_TIMES,
        }
    }

    /// Length of row `y`, as `row_len` gives it.
    fn current_row_len(&self, y: usize) -> (l: usize)
        requires
            self.content.wf(),
        ensures
            l == self.row_len(y as int),
    {
        if y < self.content.rows.len() {
            let row: &Row = &self.content.rows[y];
            proof {
                assert(self.lines()[y as int] == row@);
            }
            row.raw.as_str().unicode_len()
        } else {
            0
        }
    }

    /// Applies a cursor movement, then clamps the column to the row the cursor is on.
    pub fn update_cursor_state(&mut self, m: Movement)
        requires
            old(self).inv(),
        ensures
            final(self).inv(),
            *final(self) == old(self).with_cursor(old(self).cursor_after(m)),
    {
        proof {
            old(self).lemma_move_keeps_cursor_in_row(m);
        }
        let n = self.content.rows.len();
        let y = self.cursor_y;
        let x = self.cursor_x;
        match m {
            Movement::Up => {
                if y > 0 {
                    self.cursor_y = y - 1;
                    let l = self.current_row_len(y - 1);
                    if l < x {
                        self.cursor_x = l;
                    }
                }
            },
            Movement::Down => {
                if y < n {
                    self.cursor_y = y + 1;
                    let l = self.current_row_len(y + 1);
                    if l < x {
                        self.cursor_x = l;
                    }
                }
            },
            Movement::Left => {
                if x > 0 {
                    self.cursor_x = x - 1;
                } else if y > 0 {
                    self.cursor_y = y - 1;
                    self.cursor_x = self.current_row_len(y - 1);
                }
            },
            Movement::Right => {
                if y < n {
                    let l = self.current_row_len(y);
                    if x < l {
                        self.cursor_x = x + 1;
                    } else {
                        self.cursor_y = y + 1;
                        self.cursor_x = 0;
                    }
                }
            },
            Movement::PageUp => {
                self.cursor_y = if self.row_offset < n {
                    self.row_offset
                } else {
                    n
                };
            },
            Movement::PageDown => {
                let height = self.config.rows;
                self.cursor_y = if self.row_offset >= n {
                    n
                } else if height == 0 {
                    self.row_offset
                } else if height - 1 >= n - self.row_offset {
                    n
                } else {
                    self.row_offset + (height - 1)
                };
            },
            Movement::Home => {
                self.cursor_x = 0;
            },
            Movement::End => {
                self.cursor_x = self.current_row_len(y);
            },
        }
        let l = self.current_row_len(self.cursor_y);
        if self.cursor_x > l {
            self.cursor_x = l;
        }
    }

    /// The rendered column of the cursor; zero on the line past the last row.
    pub open spec fn cursor_render_col(&self) -> int {
        if self.cursor_y < self.lines().len() {
            render_col(self.lines()[self.cursor_y as int], self.cursor_x as int) as int
        } else {
            0
        }
    }

    /// Recomputes the cursor's rendered column from its raw column.
    pub fn cursor_x_to_render_x(&mut self)
        requires
            old(self).inv(),
        ensures
            final(self).render_x == old(self).cursor_render_col(),
            *final(self) == (Editor { render_x: final(self).render_x, ..*old(self) }),
    {
        if self.cursor_y < self.content.rows.len() {
            let row: &Row = &self.content.rows[self.cursor_y];
            proof {
                assert(self.lines()[self.cursor_y as int] == row@);
            }
            self.render_x = row.convert_index_raw_to_render(self.cursor_x);
        } else {
            self.render_x = 0;
        }
    }

    /// Brings the view after the cursor: an offset past the cursor jumps back to it,
    /// and a cursor past the end of the view moves the offset on by one.
    pub fn editor_scroll(&mut self)
        requires
            old(self).inv(),
        ensures
            final(self).inv(),
            final(self).render_x == old(self).cursor_render_col(),
            final(self).row_offset == if old(self).cursor_y < old(self).row_offset {
                old(self).cursor_y as int
            } else if old(self).config.rows > 0 && old(self).cursor_y >= old(self).row_offset
                + old(self).config.rows {
                old(self).row_offset + 1
            } else {
                old(self).row_offset as int
            },
            final(self).col_offset == if final(self).render_x < old(self).col_offset {
                final(self).render_x as int
            } else if old(self).config.cols > 0 && final(self).render_x >= old(self).col_offset
                + old(self).config.cols {
                old(self).col_offset + 1
            } else {
                old(self).col_offset as int
            },
            final(self).row_offset <= final(self).cursor_y,
            final(self).col_offset <= final(self).render_x,
            final(self).content == old(self).content,
            final(self).config == old(self).config,
            final(self).cursor_x == old(self).cursor_x,
            final(self).cursor_y == old(self).cursor_y,
            final(self).quit_times == old(self).quit_times,
    {
        self.cursor_x_to_render_x();
        let y = self.cursor_y;
        if y < self.row_offset {
            self.row_offset = y;
        } else if self.config.rows > 0 && y - self.row_offset >= self.config.rows {
            self.row_offset = self.row_offset + 1;
        }
        let rx = self.render_x;
        if rx < self.col_offset {
            self.col_offset = rx;
        } else if self.config.cols > 0 && rx - self.col_offset >= self.config.cols {
            self.col_offset = self.col_offset + 1;
        }
    }

    /// Every row's length fits a `usize`.
    proof fn lemma_row_len_fits(&self, y: int)
        requires
            self.content.wf(),
        ensures
            self.row_len(y) <= usize::MAX,
    {
        if 0 <= y < self.lines().len() {
            let row = self.content.rows@[y];
            assert(row.wf());
            lemma_render_len(row@);
        }
    }

    /// Replaces the document with one read from `text`, and puts the cursor and the view
    /// back at the origin.
    pub fn open(&mut self, filename: String, text: &String)
        requires
            old(self).inv(),
        ensures
            final(self).inv(),
            final(self).content.filename == Some(filename),
            final(self).lines() == text_lines(text@),
            !final(self).content.dirty,
            final(self).cursor_x == 0 && final(self).cursor_y == 0 && final(self).render_x == 0,
            final(self).row_offset == 0 && final(self).col_offset == 0,
            final(self).config == old(self).config,
            final(self).quit_times == old(self).quit_times,
    {
        self.content = Content::from_text(filename, text);
        self.cursor_x = 0;
        self.cursor_y = 0;
        self.render_x = 0;
        self.row_offset = 0;
        self.col_offset = 0;
    }

    /// Types `c` at the cursor and moves the cursor past it.
    pub fn insert_char(&mut self, c: char) -> (res: Result<(), EditError>)
        requires
            old(self).inv(),
        ensures
            final(self).inv(),
            res is Ok,
            old(self).cursor_y < old(self).lines().len() ==> final(self).lines() == lines_with_char(
                old(self).lines(),
                old(self).cursor_y as int,
                old(self).cursor_x as int,
                c,
            ),
            old(self).cursor_y == old(self).lines().len() ==> final(self).lines() == old(
                self,
            ).lines().push(seq![c]),
            final(self).cursor_y == old(self).cursor_y,
            final(self).cursor_x == old(self).cursor_x + 1,
            final(self).content.dirty,
            final(self).content.filename == old(self).content.filename,
            final(self).config == old(self).config,
            final(self).row_offset == old(self).row_offset,
            final(self).col_offset == old(self).col_offset,
            final(self).quit_times == old(self).quit_times,
    {
        let res = self.content.insert_char(self.cursor_y, self.cursor_x, c);
        match res {
            Ok(()) => {
                proof {
                    self.lemma_row_len_fits(self.cursor_y as int);
                }
                self.cursor_x = self.cursor_x + 1;
                Ok(())
            },
            Err(e) => Err(e),
        }
    }

    /// Breaks the line at the cursor and moves the cursor to the start of the new line.
    pub fn insert_new_line(&mut self) -> (res: Result<(), EditError>)
        requires
            old(self).inv(),
        ensures
            final(self).inv(),
            res is Ok,
            old(self).cursor_y < old(self).lines().len() ==> final(self).lines() == lines_split_at(
                old(self).lines(),
                old(self).cursor_y as int,
                old(self).cursor_x as int,
            ),
            old(self).cursor_y == old(self).lines().len() ==> final(self).lines() == old(
                self,
            ).lines().push(Seq::empty()),
            final(self).cursor_y == old(self).cursor_y + 1,
            final(self).cursor_x == 0,
            final(self).content.dirty,
            final(self).content.filename == old(self).content.filename,
            final(self).config == old(self).config,
            final(self).row_offset == old(self).row_offset,
            final(self).col_offset == old(self).col_offset,
            final(self).quit_times == old(self).quit_times,
    {
        let ghost before = self.lines();
        let res = self.content.insert_new_line(self.cursor_y, self.cursor_x);
        match res {
            Ok(()) => {
                let n = self.content.rows.len();
                proof {
                    assert(self.lines().len() == n);
                    if self.cursor_y < before.len() {
                        assert(lines_split_at(before, self.cursor_y as int, self.cursor_x as int).len()
                            == before.len() + 1);
                    }
                }
                self.cursor_y = self.cursor_y + 1;
                self.cursor_x = 0;
                Ok(())
            },
            Err(e) => Err(e),
        }
    }

    /// Removes the character before the cursor; at the start of a line, joins the line
    /// to the one before it and puts the cursor where they meet.
    pub fn backspace_char(&mut self) -> (res: Result<(), EditError>)
        requires
            old(self).inv(),
        ensures
            final(self).inv(),
            old(self).cursor_x > 0 ==> res is Ok && final(self).lines() == lines_without_char(
                old(self).lines(),
                old(self).cursor_y as int,
                old(self).cursor_x - 1,
            ) && final(self).cursor_y == old(self).cursor_y && final(self).cursor_x == old(
                self,
            ).cursor_x - 1 && final(self).content.dirty,
            old(self).cursor_x == 0 && old(self).cursor_y == 0 ==> res is Ok && *final(self)
                == *old(self),
            old(self).cursor_x == 0 && 0 < old(self).cursor_y < old(self).lines().len() ==> res is Ok
                && final(self).lines() == lines_joined_at(old(self).lines(), old(self).cursor_y as int)
                && final(self).cursor_y == old(self).cursor_y - 1 && final(self).cursor_x == old(
                self,
            ).row_len(old(self).cursor_y - 1) && final(self).content.dirty,
            old(self).cursor_x == 0 && 0 < old(self).cursor_y == old(self).lines().len() ==> res
                == Err::<(), EditError>(EditError::OutOfRange(old(self).cursor_y))
                && final(self).content.rows@ == old(self).content.rows@ && final(self).content.dirty
                == old(self).content.dirty && final(self).cursor_x == old(self).cursor_x
                && final(self).cursor_y == old(self).cursor_y,
            final(self).content.filename == old(self).content.filename,
            final(self).config == old(self).config,
            final(self).row_offset == old(self).row_offset,
            final(self).col_offset == old(self).col_offset,
            final(self).quit_times == old(self).quit_times,
    {
        if self.cursor_x > 0 {
            let res = self.content.delete_char(self.cursor_y, self.cursor_x - 1);
            match res {
                Ok(()) => {
                    self.cursor_x = self.cursor_x - 1;
                    Ok(())
                },
                Err(e) => Err(e),
            }
        } else if self.cursor_y == 0 {
            Ok(())
        } else {
            let x = self.current_row_len(self.cursor_y - 1);
            let res = self.content.concatenate_previous_row(self.cursor_y);
            match res {
                Ok(()) => {
                    self.cursor_y = self.cursor_y - 1;
                    self.cursor_x = x;
                    Ok(())
                },
                Err(e) => Err(e),
            }
        }
    }

    /// Counts one request to quit; answers whether to quit now. With unsaved changes the
    /// request is granted only once `QUIT_TIMES` requests have been made.
    pub fn request_quit(&mut self) -> (quit: bool)
        ensures
            final(self).quit_times == if old(self).quit_times > 0 {
                old(self).quit_times - 1
            } else {
                0
            },
            quit == !(old(self).content.dirty && final(self).quit_times > 0),
            *final(self) == (Editor { quit_times: final(self).quit_times, ..*old(self) }),
    {
        if self.quit_times > 0 {
            self.quit_times = self.quit_times - 1;
        }
        !(self.content.dirty && self.quit_times > 0)
    }

    /// What screen line `i` of the text area shows: row `i + row_offset` from rendered
    /// column `col_offset`, or below the document a filler line, the one a third of the
    /// way down carrying the welcome message when the document is empty.
    pub fn screen_line(&self, i: usize) -> (line: ScreenLine)
        requires
            self.content.wf(),
        ensures
            i + self.row_offset < self.lines().len() ==> (line matches ScreenLine::Text(t) && t@
                == visible_part(
                render_of(self.lines()[i + self.row_offset]),
                self.col_offset as int,
                self.config.cols as int,
            )),
            i + self.row_offset >= self.lines().len() && i == self.config.rows / 3
                && self.lines().len() == 0 ==> line is Welcome,
            i + self.row_offset >= self.lines().len() && !(i == self.config.rows / 3
                && self.lines().len() == 0) ==> line is Filler,
    {
        let n = self.content.rows.len();
        if self.row_offset < n && i < n - self.row_offset {
            let row: &Row = &self.content.rows[i + self.row_offset];
            proof {
                assert(self.lines()[i + self.row_offset] == row@);
            }
            let part = row.render_slice(self.col_offset, self.config.cols);
            ScreenLine::Text(String::from_str(part))
        } else if i == self.config.rows / 3 && n == 0 {
            ScreenLine::Welcome
        } else {
            ScreenLine::Filler
        }
    }
}

} // verus!
