//! The headless terminal emulator that tracks the state of a session's terminal.
//!
//! Output is fed to the terminal by a parser that its owner holds.

use alacritty_terminal::event::VoidListener;
use alacritty_terminal::grid::Dimensions;
use alacritty_terminal::term::test::TermSize;
use alacritty_terminal::term::{Config, Term};
use vstd::prelude::*;

use crate::protocol::WindowSize;

verus! {

/// `alacritty_terminal::term::Term`, a terminal emulator.
#[verifier::external_type_specification]
#[verifier::external_body]
#[verifier::reject_recursive_types(T)]
pub struct ExTerm<T>(Term<T>);

/// `alacritty_terminal::event::VoidListener`, which drops the events of a
/// terminal.
#[verifier::external_type_specification]
#[verifier::external_body]
pub struct ExVoidListener(VoidListener);

/// How many columns the grid of a terminal has.
pub uninterp spec fn term_columns(term: Term<VoidListener>) -> nat;

/// How many lines the screen of a terminal has.
pub uninterp spec fn term_lines(term: Term<VoidListener>) -> nat;

/// The limit on scrollback lines that a terminal was made with.
pub uninterp spec fn term_history(term: Term<VoidListener>) -> nat;

/// `Term::new` makes a terminal whose grid has the given size and whose
/// scrollback has the given limit. A screen with lines needs a column.
#[verifier::external_body]
fn new_term(columns: usize, lines: usize, history: usize) -> (term: Term<VoidListener>)
    requires
        columns >= 1 || lines == 0,
    ensures
        term_columns(term) == columns,
        term_lines(term) == lines,
        term_history(term) == history,
{
    let config = Config { scrolling_history: history, ..Default::default() };
    Term::new(config, &TermSize::new(columns, lines), VoidListener)
}

/// `Term::resize` gives the grid of a terminal another size and keeps the limit
/// on its scrollback. A grid without lines cannot be resized, nor can one be
/// made smaller than two columns and one line, and the limit plus the number of
/// lines has to fit in a `usize`.
#[verifier::external_body]
fn resize_term(term: &mut Term<VoidListener>, columns: usize, lines: usize)
    requires
        columns >= 2,
        1 <= lines <= u16::MAX,
        term_columns(*old(term)) >= 1,
        1 <= term_lines(*old(term)) <= u16::MAX,
        term_history(*old(term)) + u16::MAX <= usize::MAX,
    ensures
        term_columns(*final(term)) == columns,
        term_lines(*final(term)) == lines,
        term_history(*final(term)) == term_history(*old(term)),
{
    term.resize(TermSize::new(columns, lines));
}

/// `Dimensions::columns` of a `Term` gives the number of columns of its grid.
#[verifier::external_body]
fn columns_of(term: &Term<VoidListener>) -> (n: usize)
    ensures
        n == term_columns(*term),
{
    term.columns()
}

/// `Dimensions::screen_lines` of a `Term` gives the number of lines of its
/// screen.
#[verifier::external_body]
fn lines_of(term: &Term<VoidListener>) -> (n: usize)
    ensures
        n == term_lines(*term),
{
    term.screen_lines()
}

/// A terminal emulator that tracks terminal state without rendering.
pub struct HeadlessTerminal {
    pub term: Term<VoidListener>,
}

impl HeadlessTerminal {
    /// A terminal of this size with this much scrollback.
    pub fn new(size: &WindowSize, max_scrollback_lines: usize) -> (t: HeadlessTerminal)
        requires
            size.cols >= 1 || size.rows == 0,
        ensures
            term_columns(t.term) == size.cols,
            term_lines(t.term) == size.rows,
            term_history(t.term) == max_scrollback_lines,
    {
        HeadlessTerminal {
            term: new_term(size.cols as usize, size.rows as usize, max_scrollback_lines),
        }
    }

    /// Gives the terminal another size.
    pub fn resize(&mut self, size: &WindowSize)
        requires
            size.cols >= 2,
            size.rows >= 1,
            term_columns(old(self).term) >= 1,
            1 <= term_lines(old(self).term) <= u16::MAX,
            term_history(old(self).term) + u16::MAX <= usize::MAX,
        ensures
            term_columns(final(self).term) == size.cols,
            term_lines(final(self).term) == size.rows,
            term_history(final(self).term) == term_history(old(self).term),
    {
        resize_term(&mut self.term, size.cols as usize, size.rows as usize);
    }

    /// The underlying terminal.
    pub fn term(&self) -> (term: &Term<VoidListener>)
        ensures
            *term == self.term,
    {
        &self.term
    }

    /// The current size of the terminal in cells; the size of a cell is not
    /// known.
    pub fn current_size(&self) -> (size: WindowSize)
        ensures
            size.cols == term_columns(self.term) % 0x1_0000,
            size.rows == term_lines(self.term) % 0x1_0000,
            size.cell_width == 0,
            size.cell_height == 0,
    {
        WindowSize {
            cols: (columns_of(&self.term) % 0x1_0000) as u16,
            rows: (lines_of(&self.term) % 0x1_0000) as u16,
            cell_width: 0,
            cell_height: 0,
        }
    }

    /// Gives the terminal another size where it can have it, and answers whether
    /// it could.
    pub fn try_resize(&mut self, size: &WindowSize) -> (resized: bool)
        requires
            term_history(old(self).term) + u16::MAX <= usize::MAX,
        ensures
            resized == (size.cols >= 2 && size.rows >= 1 && term_columns(old(self).term) >= 1 && 1
                <= term_lines(old(self).term) <= u16::MAX),
            resized ==> term_columns(final(self).term) == size.cols && term_lines(final(self).term)
                == size.rows,
            !resized ==> *final(self) == *old(self),
            term_history(final(self).term) == term_history(old(self).term),
    {
        let columns: usize = columns_of(&self.term);
        let lines: usize = lines_of(&self.term);
        if size.cols >= 2 && size.rows >= 1 && columns >= 1 && lines >= 1 && lines
            <= u16::MAX as usize {
            self.resize(size);
            true
        } else {
            false
        }
    }
}

} // verus!
