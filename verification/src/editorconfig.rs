//! Indentation taken from an `.editorconfig`.

use vstd::prelude::*;

use crate::config::{indent_of, KdlFmtConfig};

verus! {

/// `ec4rs::Properties`, opaque to Verus.
#[verifier::external_type_specification]
#[verifier::external_body]
pub struct ExProperties(ec4rs::Properties);

/// An `indent_style` value.
pub enum IndentStyleSetting {
    Tabs,
    Spaces,
}

/// An `indent_size` value: a width, or "the tab width".
pub enum IndentSizeSetting {
    Value(usize),
    UseTabWidth,
}

/// The indentation width that an `.editorconfig` asks for: its
/// `indent_size`, or its `tab_width` when the size is `tab` (1 without a tab
/// width); with no size, 1 for tabs and otherwise the width in bytes of the
/// current indentation.
pub open spec fn editorconfig_width(
    current: Seq<char>,
    tabs: bool,
    size: Option<IndentSizeSetting>,
    tab_width: Option<usize>,
) -> nat {
    match size {
        None => if tabs {
            1
        } else {
            (vstd::utf8::encode_utf8(current).len() as usize) as nat
        },
        Some(IndentSizeSetting::Value(v)) => v as nat,
        Some(IndentSizeSetting::UseTabWidth) => match tab_width {
            Some(v) => v as nat,
            None => 1,
        },
    }
}

impl KdlFmtConfig {
    /// This configuration with its indentation taken from `.editorconfig`
    /// settings: tabs when the style is `tab`, spaces otherwise, as wide as
    /// `editorconfig_width` says. The result is marked as not coming from a
    /// `kdlfmt.kdl` file; every other option is kept.
    pub fn with_editorconfig_settings(
        &self,
        style: Option<IndentStyleSetting>,
        size: Option<IndentSizeSetting>,
        tab_width: Option<usize>,
    ) -> (c: Self)
        ensures
            c.use_tabs == (style == Some(IndentStyleSetting::Tabs)),
            c.indent@ == indent_of(
                editorconfig_width(self.indent@, c.use_tabs, size, tab_width),
                c.use_tabs,
            ),
            !c.from_kdlfmt_file,
            c.newlines_before_comments == self.newlines_before_comments,
            c.justify_first_property == self.justify_first_property,
            c.newlines_after_close == self.newlines_after_close,
            c.n_comment_lines_to_multiline == self.n_comment_lines_to_multiline,
            c.remove_trailing_blank_lines_in_blocks == self.remove_trailing_blank_lines_in_blocks,
            c.collapse_empty_blocks == self.collapse_empty_blocks,
            c.strip_empty_block_comments == self.strip_empty_block_comments,
            c.normalize_single_line_block_comments == self.normalize_single_line_block_comments,
    {
        let use_tabs = match style {
            Some(IndentStyleSetting::Tabs) => true,
            _ => false,
        };
        let width = match size {
            None => if use_tabs {
                1
            } else {
                self.indent.as_str().len()
            },
            Some(IndentSizeSetting::Value(v)) => v,
            Some(IndentSizeSetting::UseTabWidth) => match tab_width {
                Some(v) => v,
                None => 1,
            },
        };
        KdlFmtConfig {
            from_kdlfmt_file: false,
            indent: Self::get_indent(width, use_tabs),
            use_tabs,
            newlines_before_comments: self.newlines_before_comments,
            justify_first_property: self.justify_first_property,
            newlines_after_close: self.newlines_after_close,
            n_comment_lines_to_multiline: self.n_comment_lines_to_multiline,
            remove_trailing_blank_lines_in_blocks: self.remove_trailing_blank_lines_in_blocks,
            collapse_empty_blocks: self.collapse_empty_blocks,
            strip_empty_block_comments: self.strip_empty_block_comments,
            normalize_single_line_block_comments: self.normalize_single_line_block_comments,
        }
    }

    /// Whether a file's `.editorconfig` settles the indentation: not when
    /// this configuration came from a `kdlfmt.kdl` file, which takes
    /// precedence.
    pub fn takes_editorconfig(&self) -> (r: bool)
        ensures
            r == !self.from_kdlfmt_file,
    {
        !self.from_kdlfmt_file
    }

    /// This configuration with its indentation taken from the
    /// `.editorconfig` properties of a file, after `ec4rs`'s fallbacks
    /// (such as `indent_size` from `tab_width`) are filled in.
    pub fn with_editorconfig(&self, properties: ec4rs::Properties) -> (c: Self)
        ensures
            c.use_tabs == (ec_indent_style(ec_with_fallbacks(properties)) == Some(
                IndentStyleSetting::Tabs,
            )),
            c.indent@ == indent_of(
                editorconfig_width(
                    self.indent@,
                    c.use_tabs,
                    ec_indent_size(ec_with_fallbacks(properties)),
                    ec_tab_width(ec_with_fallbacks(properties)),
                ),
                c.use_tabs,
            ),
            !c.from_kdlfmt_file,
            c.newlines_before_comments == self.newlines_before_comments,
            c.justify_first_property == self.justify_first_property,
            c.newlines_after_close == self.newlines_after_close,
            c.n_comment_lines_to_multiline == self.n_comment_lines_to_multiline,
            c.remove_trailing_blank_lines_in_blocks == self.remove_trailing_blank_lines_in_blocks,
            c.collapse_empty_blocks == self.collapse_empty_blocks,
            c.strip_empty_block_comments == self.strip_empty_block_comments,
            c.normalize_single_line_block_comments == self.normalize_single_line_block_comments,
    {
        let mut properties = properties;
        add_fallbacks(&mut properties);
        let style = indent_style_of(&properties);
        let size = indent_size_of(&properties);
        let tab_width = tab_width_of(&properties);
        self.with_editorconfig_settings(style, size, tab_width)
    }
}

/// What `Properties::use_fallbacks` makes of the properties.
pub uninterp spec fn ec_with_fallbacks(properties: ec4rs::Properties) -> ec4rs::Properties;

/// `Properties::get` of `indent_style`, when it is set to a known value.
pub uninterp spec fn ec_indent_style(properties: ec4rs::Properties) -> Option<IndentStyleSetting>;

/// `Properties::get` of `indent_size`, when it is set to a known value.
pub uninterp spec fn ec_indent_size(properties: ec4rs::Properties) -> Option<IndentSizeSetting>;

/// `Properties::get` of `tab_width`, when it is set to a known value.
pub uninterp spec fn ec_tab_width(properties: ec4rs::Properties) -> Option<usize>;

/// `Properties::use_fallbacks`, a function of the properties.
#[verifier::external_body]
fn add_fallbacks(properties: &mut ec4rs::Properties)
    ensures
        *final(properties) == ec_with_fallbacks(*old(properties)),
{
    properties.use_fallbacks()
}

/// `Properties::get` of `indent_style`, when it is set to a known value.
#[verifier::external_body]
fn indent_style_of(properties: &ec4rs::Properties) -> (r: Option<IndentStyleSetting>)
    ensures
        r == ec_indent_style(*properties),
{
    match properties.get::<ec4rs::property::IndentStyle>() {
        Ok(ec4rs::property::IndentStyle::Tabs) => Some(IndentStyleSetting::Tabs),
        Ok(ec4rs::property::IndentStyle::Spaces) => Some(IndentStyleSetting::Spaces),
        Err(_) => None,
    }
}

/// `Properties::get` of `indent_size`, when it is set to a known value.
#[verifier::external_body]
fn indent_size_of(properties: &ec4rs::Properties) -> (r: Option<IndentSizeSetting>)
    ensures
        r == ec_indent_size(*properties),
{
    match properties.get::<ec4rs::property::IndentSize>() {
        Ok(ec4rs::property::IndentSize::Value(v)) => Some(IndentSizeSetting::Value(v)),
        Ok(ec4rs::property::IndentSize::UseTabWidth) => Some(IndentSizeSetting::UseTabWidth),
        Err(_) => None,
    }
}

/// `Properties::get` of `tab_width`, when it is set to a known value.
#[verifier::external_body]
fn tab_width_of(properties: &ec4rs::Properties) -> (r: Option<usize>)
    ensures
        r == ec_tab_width(*properties),
{
    match properties.get::<ec4rs::property::TabWidth>() {
        Ok(ec4rs::property::TabWidth::Value(v)) => Some(v),
        Err(_) => None,
    }
}

} // verus!
