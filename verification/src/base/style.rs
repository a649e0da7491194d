//! How a cell looks: its text attributes, and modifiers that change them.

use vstd::prelude::*;

verus! {

/// The text attributes of a cell.
#[derive(Clone, Copy, PartialEq, Eq, Debug, Hash)]
pub struct Style {
    pub bold: bool,
    pub italic: bool,
    pub invert: bool,
    pub underline: bool,
}

/// What a modifier does to one attribute.
#[derive(Clone, Copy, PartialEq, Eq, Debug, Hash)]
pub enum ModifyMode {
    Yes,
    No,
    Toggle,
    LeaveUnchanged,
}

/// A change to the text attributes of a cell, attribute by attribute.
#[derive(Clone, Copy, PartialEq, Eq, Debug, Hash)]
pub struct StyleModifier {
    pub bold: ModifyMode,
    pub italic: ModifyMode,
    pub invert: ModifyMode,
    pub underline: ModifyMode,
}

impl Style {
    /// The style without any attribute.
    pub open spec fn plain() -> Style {
        Style { bold: false, italic: false, invert: false, underline: false }
    }
}

impl Default for Style {
    fn default() -> (style: Style)
        ensures
            style == Style::plain(),
    {
        Style { bold: false, italic: false, invert: false, underline: false }
    }
}

impl ModifyMode {
    /// The attribute after the change.
    pub open spec fn applied(self, attribute: bool) -> bool {
        match self {
            ModifyMode::Yes => true,
            ModifyMode::No => false,
            ModifyMode::Toggle => !attribute,
            ModifyMode::LeaveUnchanged => attribute,
        }
    }

    /// Changes one attribute.
    pub fn modify(&self, attribute: bool) -> (changed: bool)
        ensures
            changed == self.applied(attribute),
    {
        match self {
            ModifyMode::Yes => true,
            ModifyMode::No => false,
            ModifyMode::Toggle => !attribute,
            ModifyMode::LeaveUnchanged => attribute,
        }
    }

    /// The mode that sets an attribute to `on`.
    pub fn set(on: bool) -> (mode: ModifyMode)
        ensures
            mode == if on {
                ModifyMode::Yes
            } else {
                ModifyMode::No
            },
    {
        if on {
            ModifyMode::Yes
        } else {
            ModifyMode::No
        }
    }
}

impl StyleModifier {
    /// The modifier that changes nothing.
    pub open spec fn unchanged() -> StyleModifier {
        StyleModifier {
            bold: ModifyMode::LeaveUnchanged,
            italic: ModifyMode::LeaveUnchanged,
            invert: ModifyMode::LeaveUnchanged,
            underline: ModifyMode::LeaveUnchanged,
        }
    }

    /// The style after the change.
    pub open spec fn applied(self, style: Style) -> Style {
        Style {
            bold: self.bold.applied(style.bold),
            italic: self.italic.applied(style.italic),
            invert: self.invert.applied(style.invert),
            underline: self.underline.applied(style.underline),
        }
    }

    /// A modifier that changes nothing.
    pub fn new() -> (modifier: StyleModifier)
        ensures
            modifier == StyleModifier::unchanged(),
    {
        StyleModifier {
            bold: ModifyMode::LeaveUnchanged,
            italic: ModifyMode::LeaveUnchanged,
            invert: ModifyMode::LeaveUnchanged,
            underline: ModifyMode::LeaveUnchanged,
        }
    }

    /// The same modifier, but with `mode` for the attribute bold.
    pub fn bold(self, mode: ModifyMode) -> (modifier: StyleModifier)
        ensures
            modifier == (StyleModifier { bold: mode, ..self }),
    {
        StyleModifier { bold: mode, ..self }
    }

    /// The same modifier, but with `mode` for the attribute italic.
    pub fn italic(self, mode: ModifyMode) -> (modifier: StyleModifier)
        ensures
            modifier == (StyleModifier { italic: mode, ..self }),
    {
        StyleModifier { italic: mode, ..self }
    }

    /// The same modifier, but with `mode` for the attribute invert.
    pub fn invert(self, mode: ModifyMode) -> (modifier: StyleModifier)
        ensures
            modifier == (StyleModifier { invert: mode, ..self }),
    {
        StyleModifier { invert: mode, ..self }
    }

    /// The same modifier, but with `mode` for the attribute underline.
    pub fn underline(self, mode: ModifyMode) -> (modifier: StyleModifier)
        ensures
            modifier == (StyleModifier { underline: mode, ..self }),
    {
        StyleModifier { underline: mode, ..self }
    }

    /// Changes a style.
    pub fn apply(&self, style: Style) -> (changed: Style)
        ensures
            changed == self.applied(style),
    {
        Style {
            bold: self.bold.modify(style.bold),
            italic: self.italic.modify(style.italic),
            invert: self.invert.modify(style.invert),
            underline: self.underline.modify(style.underline),
        }
    }
}

} // verus!
