use vstd::prelude::*;

use crate::error::EditError;
use crate::text::{chars_of, string_of};
use crate::TAB_STOP;

verus! {

/// Number of rendered columns a tab takes when it starts at column `col`.
pub open spec fn tab_width(col: nat) -> nat {
    (TAB_STOP - col % (TAB_STOP as nat)) as nat
}

/// What a single raw character turns into when it starts at rendered column `col`.
pub open spec fn expand_char(c: char, col: nat) -> Seq<char> {
    if c == '\t' {
        Seq::new(tab_width(col), |_k: int| ' ')
    } else {
        seq![c]
    }
}

/// The rendered form of a raw line: every tab becomes spaces up to the next tab stop.
pub open spec fn render_of(raw: Seq<char>) -> Seq<char>
    decreases raw.len(),
{
    if raw.len() == 0 {
        Seq::empty()
    } else {
        let prev = render_of(raw.drop_last());
        prev + expand_char(raw.last(), prev.len())
    }
}

/// The rendered column at which raw index `i` starts: the width of the first `i` characters.
pub open spec fn render_col(raw: Seq<char>, i: int) -> nat {
    render_of(raw.take(i)).len()
}

/// `r` is the raw index that rendered column `j` maps back to: the character whose
/// rendered span covers `j`, or the raw length when `j` lies past the rendered text.
pub open spec fn raw_index_at(raw: Seq<char>, j: nat, r: nat) -> bool {
    if r < raw.len() {
        render_col(raw, r as int) <= j < render_col(raw, r + 1int)
    } else {
        r == raw.len() && render_col(raw, raw.len() as int) <= j
    }
}

/// Rendering the first `i + 1` characters extends the rendering of the first `i`.
pub proof fn lemma_render_step(raw: Seq<char>, i: int)
    requires
        0 <= i < raw.len(),
    ensures
        render_of(raw.take(i + 1)) == render_of(raw.take(i)) + expand_char(
            raw[i],
            render_col(raw, i),
        ),
        render_col(raw, i) < render_col(raw, i + 1),
{
    assert(raw.take(i + 1).drop_last() =~= raw.take(i));
    assert(raw.take(i + 1).last() == raw[i]);
}

/// The rendering of a prefix is a prefix of the rendering.
pub proof fn lemma_render_prefix(raw: Seq<char>, i: int, k: int)
    requires
        0 <= i <= k <= raw.len(),
    ensures
        render_of(raw.take(k)).take(render_col(raw, i) as int) == render_of(raw.take(i)),
        render_col(raw, i) <= render_col(raw, k),
    decreases k - i,
{
    if i < k {
        lemma_render_prefix(raw, i, k - 1);
        lemma_render_step(raw, k - 1);
        assert(render_of(raw.take(k)).take(render_col(raw, i) as int) =~= render_of(
            raw.take(k - 1),
        ).take(render_col(raw, i) as int));
    } else {
        assert(render_of(raw.take(k)).take(render_col(raw, i) as int) =~= render_of(raw.take(i)));
    }
}

/// A raw index maps back to itself through its rendered column.
pub proof fn lemma_raw_index_at_render_col(raw: Seq<char>, i: int)
    requires
        0 <= i <= raw.len(),
    ensures
        raw_index_at(raw, render_col(raw, i), i as nat),
{
    if i < raw.len() {
        lemma_render_step(raw, i);
    }
}

/// Rendered columns grow strictly with the raw index.
pub proof fn lemma_render_col_strict(raw: Seq<char>, a: int, b: int)
    requires
        0 <= a < b <= raw.len(),
    ensures
        render_col(raw, a) < render_col(raw, b),
    decreases b - a,
{
    lemma_render_step(raw, b - 1);
    if a < b - 1 {
        lemma_render_col_strict(raw, a, b - 1);
    }
}

/// Inserting a character at column `c` and then deleting at column `c` gives the row's
/// content back.
pub proof fn lemma_insert_delete_inverse(raw: Seq<char>, c: int, ch: char)
    requires
        0 <= c <= raw.len(),
    ensures
        raw.insert(c, ch).remove(c) == raw,
{
    assert(raw.insert(c, ch).remove(c) =~= raw);
}

/// A rendering is at least as long as the raw text.
pub proof fn lemma_render_len(raw: Seq<char>)
    ensures
        render_of(raw).len() >= raw.len(),
    decreases raw.len(),
{
    if raw.len() > 0 {
        lemma_render_len(raw.drop_last());
    }
}

/// For every row and every raw index `i` up to its length, mapping `i` to its rendered
/// column and back gives `i` again, and nothing else.
pub proof fn lemma_tab_mapping_inverse(raw: Seq<char>, i: int)
    requires
        0 <= i <= raw.len(),
    ensures
        forall|r: nat| raw_index_at(raw, render_col(raw, i), r) <==> r == i,
{
    lemma_raw_index_at_render_col(raw, i);
    assert forall|r: nat| raw_index_at(raw, render_col(raw, i), r) implies r == i by {
        if r < i {
            lemma_render_col_strict(raw, r + 1int, i);
        } else if r > i {
            lemma_render_col_strict(raw, i + 1, r as int);
        }
    }
}

/// The part of a rendered line that shows in a window `width` columns wide whose first
/// column is `start`: empty when the line ends before `start`.
pub open spec fn visible_part(render: Seq<char>, start: int, width: int) -> Seq<char> {
    if start >= render.len() {
        Seq::empty()
    } else if start + width <= render.len() {
        render.subrange(start, start + width)
    } else {
        render.subrange(start, render.len() as int)
    }
}

/// One line of text: its characters as stored, and their rendered form.
pub struct Row {
    pub raw: String,
    pub render: String,
}

impl Row {
    /// The rendered form is the expansion of the raw form.
    pub open spec fn wf(&self) -> bool {
        &&& self.render@ == render_of(self.raw@)
        &&& self.render@.len() <= usize::MAX
    }

    /// Builds a row from a line of text and renders it.
    pub fn new(raw: &str) -> (row: Row)
        ensures
            row@ == raw@,
            row.wf(),
    {
        let mut row = Row { raw: String::from_str(raw), render: String::new() };
        row.update_render();
        row
    }

    /// Recomputes the rendered form from the raw characters.
    pub fn update_render(&mut self)
        ensures
            final(self).raw == old(self).raw,
            final(self).wf(),
    {
        let cs = chars_of(self.raw.as_str());
        let n = cs.len();
        let mut out: Vec<char> = Vec::new();
        let mut i: usize = 0;
        while i < n
            invariant
                n == cs@.len(),
                i <= n,
                out@ == render_of(cs@.take(i as int)),
            decreases n - i,
        {
            let c = cs[i];
            proof {
                lemma_render_step(cs@, i as int);
            }
            if c == '\t' {
                let col = out.len();
                let w = TAB_STOP - col % TAB_STOP;
                let ghost before = out@;
                let mut k: usize = 0;
                while k < w
                    invariant
                        k <= w,
                        w == tab_width(before.len()),
                        out@ == before + Seq::new(k as nat, |_j: int| ' '),
                    decreases w - k,
                {
                    out.push(' ');
                    k = k + 1;
                    proof {
                        assert(out@ =~= before + Seq::new(k as nat, |_j: int| ' '));
                    }
                }
                proof {
                    assert(out@ =~= before + expand_char(c, before.len()));
                }
            } else {
                out.push(c);
                proof {
                    assert(out@ =~= render_of(cs@.take(i as int)) + expand_char(c, render_col(cs@, i as int)));
                }
            }
            i = i + 1;
        }
        proof {
            assert(cs@.take(n as int) =~= cs@);
            assert(out@.len() == out.len());
        }
        self.render = string_of(&out);
    }

    /// The rendered characters from column `start`, at most `width` of them.
    pub fn render_slice(&self, start: usize, width: usize) -> (r: &str)
        ensures
            r@ == visible_part(self.render@, start as int, width as int),
    {
        let text = self.render.as_str();
        let len = text.unicode_len();
        if start >= len {
            text.substring_char(len, len)
        } else if width <= len - start {
            text.substring_char(start, start + width)
        } else {
            text.substring_char(start, len)
        }
    }

    /// Inserts `c` before raw index `n`; refused when `n` is past the end of the row.
    pub fn insert(&mut self, n: usize, c: char) -> (res: Result<(), EditError>)
        ensures
            n <= old(self)@.len() ==> res is Ok && final(self)@ == old(self)@.insert(n as int, c),
            n > old(self)@.len() ==> res == Err::<(), EditError>(EditError::IndexError(n))
                && *final(self) == *old(self),
            old(self).wf() ==> final(self).wf(),
    {
        let mut cs = chars_of(self.raw.as_str());
        if n <= cs.len() {
            cs.insert(n, c);
            self.raw = string_of(&cs);
            self.update_render();
            Ok(())
        } else {
            Err(EditError::IndexError(n))
        }
    }

    /// Removes the character at raw index `n`; refused when there is none.
    pub fn delete(&mut self, n: usize) -> (res: Result<(), EditError>)
        ensures
            n < old(self)@.len() ==> res is Ok && final(self)@ == old(self)@.remove(n as int),
            n >= old(self)@.len() ==> res == Err::<(), EditError>(EditError::IndexError(n))
                && *final(self) == *old(self),
            old(self).wf() ==> final(self).wf(),
    {
        let mut cs = chars_of(self.raw.as_str());
        if n < cs.len() {
            cs.remove(n);
            self.raw = string_of(&cs);
            self.update_render();
            Ok(())
        } else {
            Err(EditError::IndexError(n))
        }
    }

    /// Cuts the row before raw index `pivot` into two new rows.
    pub fn split(&self, pivot: usize) -> (res: Result<(Row, Row), EditError>)
        ensures
            pivot <= self@.len() ==> (res matches Ok((first, second)) && first@ == self@.take(
                pivot as int,
            ) && second@ == self@.skip(pivot as int) && first.wf() && second.wf()),
            pivot > self@.len() ==> res == Err::<(Row, Row), EditError>(
                EditError::IndexError(pivot),
            ),
    {
        let text = self.raw.as_str();
        let len = text.unicode_len();
        if pivot <= len {
            let first = Row::new(text.substring_char(0, pivot));
            let second = Row::new(text.substring_char(pivot, len));
            proof {
                assert(self@.subrange(0, pivot as int) =~= self@.take(pivot as int));
                assert(self@.subrange(pivot as int, len as int) =~= self@.skip(pivot as int));
            }
            Ok((first, second))
        } else {
            Err(EditError::IndexError(pivot))
        }
    }

    /// The rendered column at which raw index `raw_index` starts; an index past the end
    /// counts as the end.
    pub fn convert_index_raw_to_render(&self, raw_index: usize) -> (r: usize)
        requires
            self.wf(),
        ensures
            r == render_col(self@, if raw_index <= self@.len() { raw_index as int } else { self@.len() as int }),
    {
        let cs = chars_of(self.raw.as_str());
        let n = if raw_index <= cs.len() { raw_index } else { cs.len() };
        let mut col: usize = 0;
        let mut i: usize = 0;
        while i < n
            invariant
                cs@ == self@,
                n <= cs@.len(),
                i <= n,
                col == render_col(cs@, i as int),
                render_of(cs@).len() <= usize::MAX,
            decreases n - i,
        {
            proof {
                lemma_render_step(cs@, i as int);
                lemma_render_prefix(cs@, i + 1, cs@.len() as int);
                assert(cs@.take(cs@.len() as int) =~= cs@);
            }
            if cs[i] == '\t' {
                col = col + (TAB_STOP - col % TAB_STOP);
            } else {
                col = col + 1;
            }
            i = i + 1;
        }
        col
    }

    /// The raw index that rendered column `render_index` falls in; the raw length when
    /// the column lies past the rendered text.
    pub fn convert_index_render_to_raw(&self, render_index: usize) -> (r: usize)
        requires
            self.wf(),
        ensures
            raw_index_at(self@, render_index as nat, r as nat),
    {
        let cs = chars_of(self.raw.as_str());
        let n = cs.len();
        let mut col: usize = 0;
        let mut i: usize = 0;
        while i < n
            invariant
                cs@ == self@,
                n == cs@.len(),
                i <= n,
                col == render_col(cs@, i as int),
                col <= render_index,
                render_of(cs@).len() <= usize::MAX,
            decreases n - i,
        {
            proof {
                lemma_render_step(cs@, i as int);
                lemma_render_prefix(cs@, i + 1, cs@.len() as int);
                assert(cs@.take(cs@.len() as int) =~= cs@);
            }
            if cs[i] == '\t' {
                col = col + (TAB_STOP - col % TAB_STOP);
            } else {
                col = col + 1;
            }
            if col > render_index {
                return i;
            }
            i = i + 1;
        }
        n
    }
}

impl View for Row {
    type V = Seq<char>;

    /// The raw characters of the row.
    open spec fn view(&self) -> Seq<char> {
        self.raw@
    }
}

} // verus!
