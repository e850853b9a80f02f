//! The workspace the printing press writes into, and how it reads a spec
//! target.
use vstd::prelude::*;

use crate::spec::OpenApiSpec;
use crate::text::{chars_of, is_white, starts_with, str_starts_with};

verus! {

/// The repository and the directory printed CLIs go to, as path text.
#[derive(Debug, Clone)]
pub struct WorkspacePaths {
    pub repo_root: String,
    pub library_root: String,
}

/// One relative path component with no separator and no drive colon, such as
/// a slug.
pub open spec fn is_plain_segment(s: Seq<char>) -> bool {
    s.len() > 0 && forall|i: int| 0 <= i < s.len() ==> #[trigger] s[i] != '/' && s[i] != '\\' && s[i] != ':'
}

/// A Windows verbatim path, `\\?\...`, which `PathBuf::push` normalizes.
pub open spec fn has_verbatim_prefix(s: Seq<char>) -> bool {
    starts_with(s, seq!['\\', '\\', '?', '\\'])
}

/// What joining `part` to `base` gives on every platform: `part` when `base`
/// is empty; and, when `part` is a plain component and `base` is not
/// verbatim, `base` and `part` with at most one separator (`/` or `\`)
/// between them, and exactly one when `base` ends in none of `/`, `\`, `:`.
pub open spec fn joins_to(base: Seq<char>, part: Seq<char>, joined: Seq<char>) -> bool {
    &&& base.len() == 0 ==> joined == part
    &&& (is_plain_segment(part) && !has_verbatim_prefix(base)) ==> {
        ||| joined == base + part
        ||| joined == base + seq!['/'] + part
        ||| joined == base + seq!['\\'] + part
    }
    &&& (is_plain_segment(part) && !has_verbatim_prefix(base) && base.len() > 0 && base.last() != '/'
        && base.last() != '\\' && base.last() != ':') ==> {
        ||| joined == base + seq!['/'] + part
        ||| joined == base + seq!['\\'] + part
    }
}

/// `std::path::Path::join(base, part)`, shown as text. The contract claims
/// `joins_to`: an empty base gives `part`, and a plain component is appended
/// to a base that is not verbatim, with the platform's separator between
/// them when one is needed. It does not say which separator the platform
/// uses, nor what the join is for other parts.
#[verifier::external_body]
fn join_path(base: &str, part: &str) -> (joined: String)
    ensures
        joins_to(base@, part@, joined@),
{
    std::path::Path::new(base).join(part).display().to_string()
}

/// The directory a printed CLI with slug `slug` goes to by default: the
/// library root joined with the slug.
pub fn default_output_dir(paths: &WorkspacePaths, slug: &str) -> (dir: String)
    ensures
        joins_to(paths.library_root@, slug@, dir@),
{
    join_path(paths.library_root.as_str(), slug)
}

/// A target fetched over HTTP rather than read from disk.
pub open spec fn is_remote(target: Seq<char>) -> bool {
    starts_with(target, "http://"@) || starts_with(target, "https://"@)
}

pub fn is_remote_target(target: &str) -> (r: bool)
    ensures
        r == is_remote(target@),
{
    str_starts_with(target, "http://") || str_starts_with(target, "https://")
}

/// The syntax a spec document is written in.
#[derive(Debug, Clone, Copy, PartialEq, Eq, Structural)]
pub enum SpecFormat {
    Json,
    Yaml,
}

/// `s` without its leading whitespace (`str::trim_start`).
pub open spec fn trim_start_white(s: Seq<char>) -> Seq<char>
    decreases s.len(),
{
    if s.len() > 0 && is_white(s[0]) {
        trim_start_white(s.drop_first())
    } else {
        s
    }
}

/// A document whose first non-whitespace character is `{` is JSON; any other
/// is YAML.
pub open spec fn format_of(contents: Seq<char>) -> SpecFormat {
    let t = trim_start_white(contents);
    if t.len() > 0 && t[0] == '{' {
        SpecFormat::Json
    } else {
        SpecFormat::Yaml
    }
}

pub fn spec_format(contents: &str) -> (format: SpecFormat)
    ensures
        format == format_of(contents@),
{
    let v = chars_of(contents);
    let mut i: usize = 0;
    assert(contents@.skip(0) =~= contents@);
    while i < v.len() && crate::text::is_whitespace(v[i])
        invariant
            v@ == contents@,
            i <= v.len(),
            trim_start_white(contents@) == trim_start_white(contents@.skip(i as int)),
        decreases v.len() - i,
    {
        assert(contents@.skip(i as int).drop_first() =~= contents@.skip(i + 1));
        i = i + 1;
    }
    if i < v.len() && v[i] == '{' {
        SpecFormat::Json
    } else {
        SpecFormat::Yaml
    }
}

/// Why a parsed document was refused.
#[derive(Debug, Clone, Copy, PartialEq, Eq, Structural)]
pub enum SpecError {
    /// The document declares no paths.
    NoPaths,
}

/// Accepts a parsed document that declares at least one path.
pub fn validate_spec(spec: OpenApiSpec) -> (r: Result<OpenApiSpec, SpecError>)
    ensures
        match r {
            Ok(s) => s == spec && spec.paths@.len() > 0,
            Err(e) => e == SpecError::NoPaths && spec.paths@.len() == 0,
        },
{
    if spec.paths.is_empty() {
        Err(SpecError::NoPaths)
    } else {
        Ok(spec)
    }
}

} // verus!
