//! Convenience API combining parse + format in one call.

use vstd::prelude::*;

use crate::config::KdlFmtConfig;
use crate::error::FmtError;
use crate::format::{accepted_by, format_kdl, formats_to, no_blank_line_before_brace, parse_error, parse_kdl, parsed_by};
use crate::version::KdlVersion;

verus! {

/// Parses `source` as KDL of the given version and returns the formatted
/// output: what `format_kdl` makes of the parsed document. Fails exactly
/// when the version's parser refuses the source.
pub fn format_document(source: &str, version: KdlVersion, cfg: &KdlFmtConfig) -> (r: Result<
    String,
    FmtError,
>)
    ensures
        r is Ok <==> accepted_by(version, source@),
        r matches Err(e) ==> e == FmtError::Parse(parse_error(Some(version), source@)),
        r matches Ok(out) ==> formats_to(parsed_by(version, source@), *cfg, version, out@),
        r matches Ok(out) ==> (cfg.remove_trailing_blank_lines_in_blocks
            ==> no_blank_line_before_brace(out@)),
{
    let (doc, version) = parse_kdl(source, Some(version), true)?;
    Ok(format_kdl(doc, cfg, version))
}

/// Result of a format-check pass.
pub struct FormatCheck {
    /// `true` if the input was already identical to the formatter output.
    pub was_formatted: bool,
    /// What a format pass would produce.
    pub would_write: String,
}

/// Parses and formats `source`, and reports whether it was already in the
/// formatter's output form.
pub fn format_check(source: &str, version: KdlVersion, cfg: &KdlFmtConfig) -> (r: Result<
    FormatCheck,
    FmtError,
>)
    ensures
        r is Ok <==> accepted_by(version, source@),
        r matches Err(e) ==> e == FmtError::Parse(parse_error(Some(version), source@)),
        r matches Ok(c) ==> c.was_formatted == (c.would_write@ == source@),
        r matches Ok(c) ==> formats_to(parsed_by(version, source@), *cfg, version, c.would_write@),
        r matches Ok(c) ==> (cfg.remove_trailing_blank_lines_in_blocks
            ==> no_blank_line_before_brace(c.would_write@)),
{
    let formatted = format_document(source, version, cfg)?;
    let source_text = String::from_str(source);
    Ok(FormatCheck { was_formatted: formatted == source_text, would_write: formatted })
}

} // verus!
