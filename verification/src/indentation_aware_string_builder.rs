//! A line-oriented text builder that prefixes every line with the current
//! indentation.

use vstd::prelude::*;

verus! {

/// The character used for one step of indentation.
#[derive(Clone, Copy, Debug, PartialEq, Eq, Structural)]
pub enum IndentationType {
    Tabs,
    Spaces,
}

/// Collects lines of text, each indented to the level that is current when
/// the line is added.
#[derive(Debug)]
pub struct IndentationAwareStringBuilder {
    indentation_type: IndentationType,
    tab_size: Option<usize>,
    current_indentation_level: usize,
    buffer: Vec<String>,
}

/// `count` copies of `unit`.
pub open spec fn repeated(unit: char, count: nat) -> Seq<char> {
    Seq::new(count, |i: int| unit)
}

/// The number of indentation characters in front of a line at `level`.
pub open spec fn indentation_width(
    indentation_type: IndentationType,
    tab_size: Option<usize>,
    level: usize,
) -> nat {
    match indentation_type {
        IndentationType::Tabs => level as nat,
        IndentationType::Spaces => match tab_size {
            Some(width) => (level * width) as nat,
            None => (level * 4) as nat,
        },
    }
}

/// The indentation character of each style.
pub open spec fn indentation_unit(indentation_type: IndentationType) -> char {
    match indentation_type {
        IndentationType::Tabs => '\t',
        IndentationType::Spaces => ' ',
    }
}

/// The lines separated by single newlines, with no newline at the end.
pub open spec fn join_lines(lines: Seq<Seq<char>>) -> Seq<char>
    decreases lines.len(),
{
    if lines.len() == 0 {
        Seq::empty()
    } else if lines.len() == 1 {
        lines[0]
    } else {
        join_lines(lines.drop_last()) + seq!['\n'] + lines.last()
    }
}

/// The views of the strings of `lines`, in order.
pub open spec fn line_views(lines: Seq<String>) -> Seq<Seq<char>> {
    Seq::new(lines.len(), |i: int| lines[i]@)
}

fn repeat_unit(indentation_type: IndentationType, count: usize) -> (out: String)
    ensures
        out@ == repeated(indentation_unit(indentation_type), count as nat),
{
    let unit = match indentation_type {
        IndentationType::Tabs => "\t",
        IndentationType::Spaces => " ",
    };
    proof {
        reveal_strlit("\t");
        reveal_strlit(" ");
    }
    assert(unit@ =~= seq![indentation_unit(indentation_type)]);
    let mut out = String::new();
    let mut done: usize = 0;
    while done < count
        invariant
            done <= count,
            unit@ == seq![indentation_unit(indentation_type)],
            out@ == repeated(indentation_unit(indentation_type), done as nat),
        decreases count - done,
    {
        out.append(unit);
        done += 1;
        assert(out@ =~= repeated(indentation_unit(indentation_type), done as nat));
    }
    out
}

impl IndentationAwareStringBuilder {
    /// The indentation style in use.
    pub closed spec fn indentation_type(&self) -> IndentationType {
        self.indentation_type
    }

    /// The number of spaces per level; `None` when indenting with tabs and
    /// no width was set.
    pub closed spec fn tab_size(&self) -> Option<usize> {
        self.tab_size
    }

    /// The current indentation level.
    pub closed spec fn level(&self) -> usize {
        self.current_indentation_level
    }

    /// The lines added so far, indentation included.
    pub closed spec fn lines(&self) -> Seq<Seq<char>> {
        line_views(self.buffer@)
    }

    /// The line that `add` stores for `text` in the builder's current state.
    pub open spec fn indented(&self, text: Seq<char>) -> Seq<char> {
        repeated(
            indentation_unit(self.indentation_type()),
            indentation_width(self.indentation_type(), self.tab_size(), self.level()),
        ) + text
    }

    /// An empty builder at level 0 that indents with four spaces per level.
    pub fn new() -> (builder: IndentationAwareStringBuilder)
        ensures
            builder.indentation_type() == IndentationType::Spaces,
            builder.tab_size() == Some(4usize),
            builder.level() == 0,
            builder.lines() == Seq::<Seq<char>>::empty(),
    {
        let builder = IndentationAwareStringBuilder {
            indentation_type: IndentationType::Spaces,
            tab_size: Some(4),
            current_indentation_level: 0,
            buffer: Vec::new(),
        };
        assert(builder.lines() =~= Seq::<Seq<char>>::empty());
        builder
    }

    /// Selects the indentation style and resets the width to the style's
    /// default: four for spaces, none for tabs.
    pub fn with_indentation_type(&mut self, indentation_type: IndentationType) -> (builder:
        &mut IndentationAwareStringBuilder)
        ensures
            builder.indentation_type() == indentation_type,
            builder.tab_size() == match indentation_type {
                IndentationType::Spaces => Some(4usize),
                IndentationType::Tabs => None,
            },
            builder.level() == old(self).level(),
            builder.lines() == old(self).lines(),
            *final(self) == *final(builder),
    {
        self.indentation_type = indentation_type;
        self.tab_size = match indentation_type {
            IndentationType::Spaces => Some(4),
            IndentationType::Tabs => None,
        };
        self
    }

    /// Sets the number of spaces per indentation level.
    pub fn with_tab_size(&mut self, tab_size: usize) -> (builder:
        &mut IndentationAwareStringBuilder)
        ensures
            builder.indentation_type() == old(self).indentation_type(),
            builder.tab_size() == Some(tab_size),
            builder.level() == old(self).level(),
            builder.lines() == old(self).lines(),
            *final(self) == *final(builder),
    {
        self.tab_size = Some(tab_size);
        self
    }

    /// Appends `new_line`, indented to the current level.
    pub fn add(&mut self, new_line: &str)
        requires
            indentation_width(
                old(self).indentation_type(),
                old(self).tab_size(),
                old(self).level(),
            ) <= usize::MAX,
        ensures
            final(self).lines() == old(self).lines().push(old(self).indented(new_line@)),
            final(self).indentation_type() == old(self).indentation_type(),
            final(self).tab_size() == old(self).tab_size(),
            final(self).level() == old(self).level(),
    {
        let width: usize = match self.indentation_type {
            IndentationType::Spaces => match self.tab_size {
                Some(width) => self.current_indentation_level * width,
                None => self.current_indentation_level * 4,
            },
            IndentationType::Tabs => self.current_indentation_level,
        };
        let mut line = repeat_unit(self.indentation_type, width);
        line.append(new_line);
        self.buffer.push(line);
        assert(self.lines() =~= old(self).lines().push(old(self).indented(new_line@)));
    }

    /// Moves one indentation level deeper.
    pub fn increase_indentation(&mut self)
        requires
            old(self).level() < usize::MAX,
        ensures
            final(self).level() == old(self).level() + 1,
            final(self).lines() == old(self).lines(),
            final(self).indentation_type() == old(self).indentation_type(),
            final(self).tab_size() == old(self).tab_size(),
    {
        self.current_indentation_level += 1;
    }

    /// Moves one indentation level back.
    pub fn decrease_indentation(&mut self)
        requires
            old(self).level() > 0,
        ensures
            final(self).level() == old(self).level() - 1,
            final(self).lines() == old(self).lines(),
            final(self).indentation_type() == old(self).indentation_type(),
            final(self).tab_size() == old(self).tab_size(),
    {
        self.current_indentation_level -= 1;
    }

    /// The accumulated lines joined with newlines.
    pub fn build_string(self) -> (text: String)
        ensures
            text@ == join_lines(self.lines()),
    {
        let mut text = String::new();
        let mut index: usize = 0;
        while index < self.buffer.len()
            invariant
                index <= self.buffer.len(),
                text@ == join_lines(self.lines().take(index as int)),
            decreases self.buffer.len() - index,
        {
            if index > 0 {
                text.append("\n");
            }
            text.append(self.buffer[index].as_str());
            proof {
                reveal_strlit("\n");
                let before = self.lines().take(index as int);
                let after = self.lines().take(index + 1);
                assert(after.drop_last() =~= before);
                assert(after.last() == self.buffer@[index as int]@);
                assert("\n"@ =~= seq!['\n']);
                if index == 0 {
                    assert(text@ =~= after[0]);
                }
            }
            index += 1;
        }
        assert(self.lines().take(index as int) =~= self.lines());
        text
    }
}

} // verus!
