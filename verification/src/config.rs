//! Formatter configuration: indentation style and the scopes over which
//! alignment columns are computed.

use vstd::prelude::*;

verus! {

/// Whether indentation is rendered with tab characters or with spaces.
#[derive(Clone, Copy, Debug, PartialEq, Eq, Structural)]
pub enum IndentMode {
    Tabs,
    Spaces,
}

impl IndentMode {
    /// The byte used for one unit of indentation under this mode.
    pub open spec fn indent_byte_spec(self) -> u8 {
        match self {
            IndentMode::Tabs => 9u8,
            IndentMode::Spaces => 32u8,
        }
    }

    /// The string used for one unit of indentation under this mode.
    pub fn into_str(self) -> (r: &'static str)
        ensures
            self is Tabs ==> r@ == "\t"@,
            self is Spaces ==> r@ == " "@,
    {
        match self {
            IndentMode::Tabs => "\t",
            IndentMode::Spaces => " ",
        }
    }

    /// The byte used for one unit of indentation under this mode.
    pub fn indent_byte(self) -> (r: u8)
        ensures
            r == self.indent_byte_spec(),
    {
        match self {
            IndentMode::Tabs => 9u8,
            IndentMode::Spaces => 32u8,
        }
    }
}

impl Default for IndentMode {
    fn default() -> (r: Self)
        ensures
            r is Spaces,
    {
        IndentMode::Spaces
    }
}

/// The scope over which an alignment column's width is computed: a block
/// (contiguous run of lines), a category (braced section), or the whole file.
#[derive(Clone, Copy, Debug, PartialEq, Eq, Structural)]
pub enum SpacingContext {
    Block,
    Category,
    File,
}

impl Default for SpacingContext {
    fn default() -> (r: Self)
        ensures
            r is Category,
    {
        SpacingContext::Category
    }
}

/// How the right-hand side of a bind/command statement is spaced: left as
/// single-space-separated values, or spread to even columns.  The even
/// spreading is accepted in the configuration but its exact column behaviour
/// is left unspecified, and the renderer emits right-hand sides verbatim.
#[derive(Clone, Copy, Debug, PartialEq, Eq, Structural)]
pub enum CommandRhsSpacingMode {
    Compact,
    Equidistant,
}

impl Default for CommandRhsSpacingMode {
    fn default() -> (r: Self)
        ensures
            r is Compact,
    {
        CommandRhsSpacingMode::Compact
    }
}

/// The scope associated with [`CommandRhsSpacingMode`].
#[derive(Clone, Copy, Debug, PartialEq, Eq, Structural)]
pub enum CommandRhsSpacingContext {
    Block,
    Category,
}

impl Default for CommandRhsSpacingContext {
    fn default() -> (r: Self)
        ensures
            r is Block,
    {
        CommandRhsSpacingContext::Block
    }
}

/// The resolved configuration the formatting engine consumes, read-only.
#[derive(Clone, Copy, Debug, PartialEq, Eq, Structural)]
pub struct Config {
    /// Number of indentation characters per nesting level.
    pub indent_width: u8,
    /// Tabs or spaces.
    pub indent_mode: IndentMode,
    /// Scope for aligning the `=` operator column.
    pub eq_spacing_context: SpacingContext,
    /// Scope for aligning the trailing-comment column.
    pub comment_spacing_context: SpacingContext,
    /// Right-hand-side spacing mode for bind/command statements.
    pub command_rhs_spacing_mode: CommandRhsSpacingMode,
    /// Scope associated with the right-hand-side spacing mode.
    pub command_rhs_spacing_context: CommandRhsSpacingContext,
}

impl Default for Config {
    /// Two-space indentation, with both alignment columns scoped per category.
    fn default() -> (r: Self)
        ensures
            r.indent_width == 2,
            r.indent_mode is Spaces,
            r.eq_spacing_context is Category,
            r.comment_spacing_context is Category,
            r.command_rhs_spacing_mode is Compact,
            r.command_rhs_spacing_context is Block,
    {
        Config {
            indent_width: 2,
            indent_mode: IndentMode::Spaces,
            eq_spacing_context: SpacingContext::Category,
            comment_spacing_context: SpacingContext::Category,
            command_rhs_spacing_mode: CommandRhsSpacingMode::Compact,
            command_rhs_spacing_context: CommandRhsSpacingContext::Block,
        }
    }
}

} // verus!
