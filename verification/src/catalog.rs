//! Turning what the user named (a local file, a URL or a catalog entry) into
//! a resolved target.
use vstd::prelude::*;

use crate::slug::{humanize_slug, is_slug, slug_of, slug_of_title_of_slug, slugify, title_of_slug};
use crate::text::{
    contains, copy_str, ends_with, remove_all, remove_all_str, str_contains, str_ends_with,
};

verus! {

/// An entry of the catalog of known APIs.
#[derive(Debug, Clone)]
pub struct CatalogEntry {
    pub name: String,
    pub display_name: Option<String>,
    pub description: Option<String>,
    pub category: Option<String>,
    pub spec_url: Option<String>,
    pub spec_format: Option<String>,
    pub homepage: Option<String>,
}

#[derive(Debug, Clone, Copy, PartialEq, Eq, Structural)]
pub enum ResolvedTargetKind {
    Catalog,
    LocalFile,
    RemoteSpec,
    Url,
}

/// What a target named by the user resolved to.
#[derive(Debug, Clone)]
pub struct ResolvedTarget {
    pub input: String,
    pub kind: ResolvedTargetKind,
    pub name: String,
    pub slug: String,
    pub display_name: String,
    pub description: Option<String>,
    pub spec_source: Option<String>,
    pub homepage: Option<String>,
}

pub open spec fn opt_view(o: Option<String>) -> Option<Seq<char>> {
    match o {
        Some(s) => Some(s@),
        None => None,
    }
}

pub struct ResolvedTargetView {
    pub input: Seq<char>,
    pub kind: ResolvedTargetKind,
    pub name: Seq<char>,
    pub slug: Seq<char>,
    pub display_name: Seq<char>,
    pub description: Option<Seq<char>>,
    pub spec_source: Option<Seq<char>>,
    pub homepage: Option<Seq<char>>,
}

impl View for ResolvedTarget {
    type V = ResolvedTargetView;

    open spec fn view(&self) -> ResolvedTargetView {
        ResolvedTargetView {
            input: self.input@,
            kind: self.kind,
            name: self.name@,
            slug: self.slug@,
            display_name: self.display_name@,
            description: opt_view(self.description),
            spec_source: opt_view(self.spec_source),
            homepage: opt_view(self.homepage),
        }
    }
}

impl ResolvedTarget {
    /// Where the target's OpenAPI document is, if it has one.
    pub fn spec_ref(&self) -> (r: Option<&str>)
        ensures
            match r {
                Some(s) => opt_view(self.spec_source) == Some(s@),
                None => self.spec_source is None,
            },
    {
        match &self.spec_source {
            Some(s) => Some(s.as_str()),
            None => None,
        }
    }
}

fn copy_opt(o: &Option<String>) -> (r: Option<String>)
    ensures
        r == *o,
{
    match o {
        Some(s) => Some(s.clone()),
        None => None,
    }
}

// ---------------------------------------------------------------------------
// Local files
// ---------------------------------------------------------------------------

/// The target for an existing local file, given its file stem (when it has
/// one that is text) and its absolute path.
pub open spec fn local_target_of(input: Seq<char>, stem: Option<Seq<char>>, absolute: Seq<char>) -> ResolvedTargetView {
    let name = match stem {
        Some(s) => s,
        None => "local-spec"@,
    };
    ResolvedTargetView {
        input: input,
        kind: ResolvedTargetKind::LocalFile,
        name: name,
        slug: slug_of(name),
        display_name: title_of_slug(slug_of(name)),
        description: Some("Local spec file"@),
        spec_source: Some(absolute),
        homepage: None,
    }
}

pub fn resolve_local_target(input: &str, stem: Option<&str>, absolute: &str) -> (target: ResolvedTarget)
    ensures
        target@ == local_target_of(
            input@,
            match stem {
                Some(s) => Some(s@),
                None => None,
            },
            absolute@,
        ),
        is_slug(target.slug@),
        slug_of(target.display_name@) == target.slug@,
{
    let name = match stem {
        Some(s) => copy_str(s),
        None => copy_str("local-spec"),
    };
    let slug = slugify(name.as_str());
    let display_name = humanize_slug(slug.as_str());
    proof {
        slug_of_title_of_slug(slug@);
    }
    ResolvedTarget {
        input: copy_str(input),
        kind: ResolvedTargetKind::LocalFile,
        name,
        slug,
        display_name,
        description: Some(copy_str("Local spec file")),
        spec_source: Some(copy_str(absolute)),
        homepage: None,
    }
}

// ---------------------------------------------------------------------------
// URLs
// ---------------------------------------------------------------------------

/// The parts of a parsed URL that resolution reads.
#[derive(Debug, Clone)]
pub struct ParsedUrl {
    /// The `/`-separated path segments; `None` for a cannot-be-a-base URL.
    pub path_segments: Option<Vec<String>>,
    pub host: Option<String>,
}

pub open spec fn segments_view(o: Option<Vec<String>>) -> Option<Seq<Seq<char>>> {
    match o {
        Some(v) => Some(v@.map_values(|s: String| s@)),
        None => None,
    }
}

impl View for ParsedUrl {
    type V = (Option<Seq<Seq<char>>>, Option<Seq<char>>);

    open spec fn view(&self) -> (Option<Seq<Seq<char>>>, Option<Seq<char>>) {
        (segments_view(self.path_segments), opt_view(self.host))
    }
}

/// What `url::Url::parse` makes of a text, as path segments and host; `None`
/// when the text is not an absolute URL.
pub uninterp spec fn parsed_url(input: Seq<char>) -> Option<(Option<Seq<Seq<char>>>, Option<Seq<char>>)>;

/// Parses `input` with `url::Url::parse` and keeps its path segments
/// (`Url::path_segments`) and host (`Url::host_str`). The contract says only
/// that the result is `parsed_url` of the input: the URL grammar is the url
/// crate's.
#[verifier::external_body]
fn parse_url(input: &str) -> (r: Option<ParsedUrl>)
    ensures
        match r {
            Some(u) => parsed_url(input@) == Some(u@),
            None => parsed_url(input@) is None,
        },
{
    match url::Url::parse(input) {
        Ok(u) => Some(
            ParsedUrl {
                path_segments: u.path_segments().map(|s| s.map(|p| p.to_string()).collect()),
                host: u.host_str().map(|h| h.to_string()),
            },
        ),
        Err(_) => None,
    }
}

/// The last non-empty segment.
pub open spec fn last_non_empty(segs: Seq<Seq<char>>) -> Option<Seq<char>>
    decreases segs.len(),
{
    if segs.len() == 0 {
        None
    } else if segs.last().len() > 0 {
        Some(segs.last())
    } else {
        last_non_empty(segs.drop_last())
    }
}

pub open spec fn host_or_default(host: Option<Seq<char>>) -> Seq<char> {
    match host {
        Some(h) => h,
        None => "target"@,
    }
}

/// `s` without `.yaml`, `.yml` and `.json`, removed in that order.
pub open spec fn without_spec_extensions(s: Seq<char>) -> Seq<char> {
    remove_all(remove_all(remove_all(s, ".yaml"@), ".yml"@), ".json"@)
}

/// The text a URL's slug is made from: its last non-empty path segment (else
/// its host, else `target`) without spec extensions; the host (else
/// `target`) when nothing is left.
pub open spec fn url_slug_source(u: (Option<Seq<Seq<char>>>, Option<Seq<char>>)) -> Seq<char> {
    let raw = match u.0 {
        Some(segs) => match last_non_empty(segs) {
            Some(s) => s,
            None => host_or_default(u.1),
        },
        None => host_or_default(u.1),
    };
    let c = without_spec_extensions(raw);
    if c.len() == 0 {
        host_or_default(u.1)
    } else {
        c
    }
}

/// A URL that ends in a spec extension or mentions `openapi` points at a
/// document.
pub open spec fn looks_like_spec(target: Seq<char>) -> bool {
    ends_with(target, ".yaml"@) || ends_with(target, ".yml"@) || ends_with(target, ".json"@)
        || contains(target, "openapi"@)
}

pub open spec fn url_target_of(input: Seq<char>, u: (Option<Seq<Seq<char>>>, Option<Seq<char>>)) -> ResolvedTargetView {
    let slug = slug_of(url_slug_source(u));
    let spec = looks_like_spec(input);
    ResolvedTargetView {
        input: input,
        kind: if spec {
            ResolvedTargetKind::RemoteSpec
        } else {
            ResolvedTargetKind::Url
        },
        name: slug,
        slug: slug,
        display_name: title_of_slug(slug),
        description: Some(
            if spec {
                "Remote spec URL"@
            } else {
                "Website target"@
            },
        ),
        spec_source: if spec {
            Some(input)
        } else {
            None
        },
        homepage: Some(input),
    }
}

fn host_or_target(url: &ParsedUrl) -> (r: String)
    ensures
        r@ == host_or_default(url@.1),
{
    match &url.host {
        Some(h) => h.clone(),
        None => copy_str("target"),
    }
}

/// The position of the last non-empty segment.
fn last_non_empty_position(segments: &Vec<String>) -> (r: Option<usize>)
    ensures
        match r {
            Some(k) => k < segments@.len() && last_non_empty(segments@.map_values(|s: String| s@))
                == Some(segments@[k as int]@),
            None => last_non_empty(segments@.map_values(|s: String| s@)) is None,
        },
{
    let ghost segs = segments@.map_values(|s: String| s@);
    let mut i: usize = segments.len();
    assert(segs.take(segs.len() as int) =~= segs);
    while i > 0
        invariant
            i <= segments.len(),
            segs == segments@.map_values(|s: String| s@),
            last_non_empty(segs) == last_non_empty(segs.take(i as int)),
        decreases i,
    {
        assert(segs.take(i as int).last() == segments@[i - 1]@);
        assert(segs.take(i as int).drop_last() =~= segs.take(i - 1));
        if !segments[i - 1].as_str().is_empty() {
            return Some(i - 1);
        }
        i = i - 1;
    }
    None
}

/// The slug of a URL.
pub fn slug_from_url(url: &ParsedUrl) -> (slug: String)
    ensures
        slug@ == slug_of(url_slug_source(url@)),
        is_slug(slug@),
{
    let raw = match &url.path_segments {
        Some(segments) => match last_non_empty_position(segments) {
            Some(k) => segments[k].clone(),
            None => host_or_target(url),
        },
        None => host_or_target(url),
    };
    proof {
        reveal_strlit(".yaml");
        reveal_strlit(".yml");
        reveal_strlit(".json");
    }
    let a = remove_all_str(raw.as_str(), ".yaml");
    let b = remove_all_str(a.as_str(), ".yml");
    let candidate = remove_all_str(b.as_str(), ".json");
    let candidate = if candidate.as_str().is_empty() {
        host_or_target(url)
    } else {
        candidate
    };
    slugify(candidate.as_str())
}

/// The target for a text that parsed as a URL.
pub fn resolve_url_target(input: &str, url: &ParsedUrl) -> (target: ResolvedTarget)
    ensures
        target@ == url_target_of(input@, url@),
        is_slug(target.slug@),
        slug_of(target.display_name@) == target.slug@,
{
    let slug = slug_from_url(url);
    let looks_like_spec = str_ends_with(input, ".yaml") || str_ends_with(input, ".yml")
        || str_ends_with(input, ".json") || str_contains(input, "openapi");
    let display_name = humanize_slug(slug.as_str());
    proof {
        slug_of_title_of_slug(slug@);
    }
    ResolvedTarget {
        input: copy_str(input),
        kind: if looks_like_spec {
            ResolvedTargetKind::RemoteSpec
        } else {
            ResolvedTargetKind::Url
        },
        name: slug.clone(),
        slug,
        display_name,
        description: Some(
            if looks_like_spec {
                copy_str("Remote spec URL")
            } else {
                copy_str("Website target")
            },
        ),
        spec_source: if looks_like_spec {
            Some(copy_str(input))
        } else {
            None
        },
        homepage: Some(copy_str(input)),
    }
}

/// The target for `input` if it parses as an absolute URL.
pub fn resolve_remote_target(input: &str) -> (target: Option<ResolvedTarget>)
    ensures
        match target {
            Some(t) => parsed_url(input@) is Some && t@ == url_target_of(input@, parsed_url(input@)->0),
            None => parsed_url(input@) is None,
        },
{
    match parse_url(input) {
        Some(url) => Some(resolve_url_target(input, &url)),
        None => None,
    }
}

// ---------------------------------------------------------------------------
// Catalog entries
// ---------------------------------------------------------------------------

/// The file name of the catalog entry for `target`.
pub fn catalog_file_name(target: &str) -> (name: String)
    ensures
        name@ == target@ + ".yaml"@,
{
    let mut name = copy_str(target);
    name.append(".yaml");
    name
}

pub open spec fn catalog_target_of(input: Seq<char>, entry: CatalogEntry) -> ResolvedTargetView {
    let slug = slug_of(entry.name@);
    ResolvedTargetView {
        input: input,
        kind: ResolvedTargetKind::Catalog,
        name: entry.name@,
        slug: slug,
        display_name: match entry.display_name {
            Some(d) => d@,
            None => title_of_slug(slug),
        },
        description: opt_view(entry.description),
        spec_source: opt_view(entry.spec_url),
        homepage: opt_view(entry.homepage),
    }
}

/// The target for a catalog entry.
pub fn resolve_catalog_target(input: &str, entry: &CatalogEntry) -> (target: ResolvedTarget)
    ensures
        target@ == catalog_target_of(input@, *entry),
        is_slug(target.slug@),
{
    let slug = slugify(entry.name.as_str());
    let display_name = match &entry.display_name {
        Some(d) => d.clone(),
        None => humanize_slug(slug.as_str()),
    };
    ResolvedTarget {
        input: copy_str(input),
        kind: ResolvedTargetKind::Catalog,
        name: entry.name.clone(),
        slug,
        display_name,
        description: copy_opt(&entry.description),
        spec_source: copy_opt(&entry.spec_url),
        homepage: copy_opt(&entry.homepage),
    }
}


/// A URL whose text ends in `.json`, `.yaml` or `.yml`, or mentions
/// `openapi`, is a remote spec whose document is loaded from the URL itself;
/// any other URL is a website with no document. The slug, name and homepage
/// do not depend on which of the two it is.
pub proof fn spec_urls_are_remote_specs(input: Seq<char>, u: (Option<Seq<Seq<char>>>, Option<Seq<char>>))
    ensures
        (ends_with(input, ".json"@) || ends_with(input, ".yaml"@) || ends_with(input, ".yml"@)
            || contains(input, "openapi"@)) ==> ({
            let t = url_target_of(input, u);
            &&& t.kind == ResolvedTargetKind::RemoteSpec
            &&& t.spec_source == Some(input)
            &&& t.description == Some("Remote spec URL"@)
        }),
        !(ends_with(input, ".json"@) || ends_with(input, ".yaml"@) || ends_with(input, ".yml"@)
            || contains(input, "openapi"@)) ==> ({
            let t = url_target_of(input, u);
            &&& t.kind == ResolvedTargetKind::Url
            &&& t.spec_source is None
            &&& t.description == Some("Website target"@)
        }),
        url_target_of(input, u).slug == slug_of(url_slug_source(u)),
        url_target_of(input, u).name == url_target_of(input, u).slug,
        url_target_of(input, u).homepage == Some(input),
{
}

} // verus!
