//! Serializer configuration: indentation, self-close padding, line width,
//! entity-encoding policy, and text re-flow.

use vstd::prelude::*;

verus! {

/// How reserved and non-ASCII characters are written in text and in
/// attribute values.
///
/// `Standard` escapes only the minimal reserved set (`&`, `<`, `>` always,
/// `"` inside attribute values) as named entities. `Hex` escapes the same
/// reserved set and, in addition, every non-ASCII and non-printable
/// character, all as hexadecimal numeric character references `&#xNNNN;`.
#[derive(Clone, Copy, Debug, PartialEq, Eq, Structural)]
pub enum EntityMode {
    Standard,
    Hex,
}

/// Formatting options of the serializer.
#[derive(Clone, Copy, Debug, PartialEq, Eq, Structural)]
pub struct Config {
    /// Spaces per nesting level.
    pub indent: usize,
    /// Spaces inserted before the `/>` marker of a childless element.
    pub end_pad: usize,
    /// Soft width budget for a line.
    pub max_line_length: usize,
    /// Entity-encoding policy.
    pub entity_mode: EntityMode,
    /// When true, text content is re-flowed to match structural
    /// indentation; when false, text content is emitted byte-for-byte.
    pub indent_text_nodes: bool,
}

impl Config {
    /// The spec-level default configuration.
    pub open spec fn spec_default() -> Config {
        Config {
            indent: 2,
            end_pad: 1,
            max_line_length: 120,
            entity_mode: EntityMode::Standard,
            indent_text_nodes: false,
        }
    }

    /// The configuration with the given indent width.
    pub fn with_indent(self, indent: usize) -> (r: Config)
        ensures
            r == (Config { indent, ..self }),
    {
        Config { indent, ..self }
    }

    /// The configuration with the given self-close padding.
    pub fn with_end_pad(self, end_pad: usize) -> (r: Config)
        ensures
            r == (Config { end_pad, ..self }),
    {
        Config { end_pad, ..self }
    }

    /// The configuration with the given line width.
    pub fn with_max_line_length(self, max_line_length: usize) -> (r: Config)
        ensures
            r == (Config { max_line_length, ..self }),
    {
        Config { max_line_length, ..self }
    }

    /// The configuration with the given entity-encoding policy.
    pub fn with_entity_mode(self, entity_mode: EntityMode) -> (r: Config)
        ensures
            r == (Config { entity_mode, ..self }),
    {
        Config { entity_mode, ..self }
    }

    /// The configuration with the given text re-flow policy.
    pub fn with_indent_text_nodes(self, indent_text_nodes: bool) -> (r: Config)
        ensures
            r == (Config { indent_text_nodes, ..self }),
    {
        Config { indent_text_nodes, ..self }
    }
}

impl Default for Config {
    /// The default configuration: two-space indent, one space of self-close
    /// padding, 120-character lines, standard entities, no text re-flow.
    fn default() -> (r: Config)
        ensures
            r == Config::spec_default(),
    {
        Config {
            indent: 2,
            end_pad: 1,
            max_line_length: 120,
            entity_mode: EntityMode::Standard,
            indent_text_nodes: false,
        }
    }
}

} // verus!
