//! The buffer that a configuration is written into, and the layout rules.

use vstd::prelude::*;
use vstd::string::StringExecFns;
use crate::text::{decimal, push_decimal, push_signed, signed_decimal};

verus! {

/// A configuration of formatting style.
///
/// It holds the number of spaces by which the directives of a block are
/// moved to the right.
#[derive(Debug, PartialEq, Clone)]
pub struct Style {
    indent: u32,
}

impl Default for Style {
    /// Four spaces for each level.
    fn default() -> (r: Style)
        ensures
            r.step() == 4,
    {
        Style { indent: 4 }
    }
}

impl Style {
    /// The number of spaces for each level.
    pub closed spec fn step(&self) -> u32 {
        self.indent
    }

    /// Changes the number of spaces used for indentation.
    pub fn indent(&mut self, indent: u32)
        ensures
            final(self).step() == indent,
    {
        self.indent = indent;
    }

    /// The number of spaces used for indentation.
    pub fn width(&self) -> (r: u32)
        ensures
            r == self.step(),
    {
        self.indent
    }
}

/// What has been written, and how far the next line is moved to the right.
pub struct Page {
    pub text: Seq<char>,
    pub indent: u32,
    pub step: u32,
}

/// `n` spaces.
pub open spec fn spaces(n: nat) -> Seq<char> {
    Seq::new(n, |i: int| ' ')
}

/// `a + b`, held at the largest `u32` where the sum does not fit.
pub open spec fn deeper(a: u32, b: u32) -> u32 {
    if a + b > u32::MAX {
        u32::MAX
    } else {
        (a + b) as u32
    }
}

impl Page {
    /// An empty page.
    pub open spec fn blank(step: u32) -> Page {
        Page { text: Seq::empty(), indent: 0, step }
    }

    /// The page with `s` written behind what it holds.
    pub open spec fn write(self, s: Seq<char>) -> Page {
        Page { text: self.text + s, ..self }
    }

    /// The page with the character `c` written behind what it holds.
    pub open spec fn put(self, c: char) -> Page {
        self.write(seq![c])
    }

    /// The page with the spaces that start a line.
    pub open spec fn indent(self) -> Page {
        self.write(spaces(self.indent as nat))
    }

    /// The page with the semicolon and line end that close a directive.
    pub open spec fn end(self) -> Page {
        self.write(seq![';', '\n'])
    }

    /// The page with an empty line, unless nothing has been written yet.
    pub open spec fn margin(self) -> Page {
        if self.text.len() > 0 {
            self.write(seq!['\n'])
        } else {
            self
        }
    }

    /// The page with an opening brace and its line end, one level deeper.
    pub open spec fn start_block(self) -> Page {
        Page { indent: deeper(self.indent, self.step), ..self.write(seq!['{', '\n']) }
    }

    /// The page back at the level `indent`, with a closing brace on a line
    /// of its own.
    pub open spec fn end_block(self, indent: u32) -> Page {
        Page { indent, ..self }.indent().write(seq!['}', '\n'])
    }
}

/// Collects the text of a configuration while it is written.
pub struct Formatter {
    buf: String,
    step: u32,
    indent: u32,
}

impl View for Formatter {
    type V = Page;

    closed spec fn view(&self) -> Page {
        Page { text: self.buf@, indent: self.indent, step: self.step }
    }
}

impl Formatter {
    /// A formatter that has written nothing.
    pub fn new(style: &Style) -> (r: Formatter)
        ensures
            r@ == Page::blank(style.step()),
    {
        Formatter { buf: String::new(), step: style.indent, indent: 0 }
    }

    /// The level at which the formatter writes.
    pub fn level(&self) -> (r: u32)
        ensures
            r == self@.indent,
    {
        self.indent
    }

    /// Writes the spaces that start a line.
    pub fn indent(&mut self)
        ensures
            final(self)@ == old(self)@.indent(),
    {
        let mut i: u32 = 0;
        while i < self.indent
            invariant
                i <= self.indent,
                self.indent == old(self).indent,
                self.step == old(self).step,
                self.buf@ =~= old(self).buf@ + spaces(i as nat),
            decreases self.indent - i,
        {
            self.buf.push(' ');
            i += 1;
        }
    }

    /// Writes the semicolon and line end that close a directive.
    pub fn end(&mut self)
        ensures
            final(self)@ == old(self)@.end(),
    {
        self.buf.push(';');
        self.buf.push('\n');
        assert(self.buf@ =~= old(self).buf@ + seq![';', '\n']);
    }

    /// Writes an empty line, unless nothing has been written yet.
    pub fn margin(&mut self)
        ensures
            final(self)@ == old(self)@.margin(),
    {
        if !self.buf.as_str().is_empty() {
            self.buf.push('\n');
            assert(self.buf@ =~= old(self).buf@ + seq!['\n']);
        }
    }

    /// Writes an opening brace and goes one level deeper.
    pub fn start_block(&mut self)
        ensures
            final(self)@ == old(self)@.start_block(),
    {
        self.buf.push('{');
        self.buf.push('\n');
        assert(self.buf@ =~= old(self).buf@ + seq!['{', '\n']);
        self.indent = self.indent.saturating_add(self.step);
    }

    /// Goes back to the level `indent` and writes a closing brace.
    pub fn end_block(&mut self, indent: u32)
        ensures
            final(self)@ == old(self)@.end_block(indent),
    {
        self.indent = indent;
        self.indent();
        self.buf.push('}');
        self.buf.push('\n');
        assert(self.buf@ =~= old(self).buf@ + spaces(indent as nat) + seq!['}', '\n']);
        assert(self@.text =~= old(self)@.end_block(indent).text);
    }

    /// Writes `s`.
    pub fn write(&mut self, s: &str)
        ensures
            final(self)@ == old(self)@.write(s@),
    {
        self.buf.append(s);
    }

    /// Writes one character.
    pub fn put(&mut self, c: char)
        ensures
            final(self)@ == old(self)@.put(c),
    {
        self.buf.push(c);
        assert(self.buf@ =~= old(self).buf@ + seq![c]);
    }

    /// Writes `n` in decimal.
    pub fn number(&mut self, n: u64)
        ensures
            final(self)@ == old(self)@.write(decimal(n as nat)),
    {
        push_decimal(&mut self.buf, n);
    }

    /// Writes `n` in decimal, with a minus sign where it is negative.
    pub fn signed(&mut self, n: i64)
        ensures
            final(self)@ == old(self)@.write(signed_decimal(n as int)),
    {
        push_signed(&mut self.buf, n);
    }

    /// What has been written.
    pub fn into_string(self) -> (r: String)
        ensures
            r@ == self@.text,
    {
        self.buf
    }
}

} // verus!
