//! Configuration model: a sparse, user-supplied source specification and its
//! resolution into a fully-determined file-discovery plan, with every
//! optional field replaced by an explicit, validated value.

use vstd::prelude::*;
use crate::json::{JsonV, JsonValue};

verus! {

/// A whole configuration: a list of source entries, or none at all.
pub struct Config {
    pub source: Option<Vec<SourceFileConfig>>,
}

/// One source entry as the user wrote it: only `root` is required.
pub struct SourceFileConfig {
    pub root: String,
    pub follow_links: Option<bool>,
    pub max_depth: Option<usize>,
    pub glob: Option<SourceGlob>,
    pub format: Option<SourceFormat>,
    pub files: Option<Vec<(String, SourceFormat)>>,
    pub exclude: Option<Vec<String>>,
}

/// The `glob` key: either a pattern string, or a switch for the default one.
pub enum SourceGlob {
    Glob(String),
    Enable(bool),
}

/// A format table as the user wrote it: every field optional.
pub struct SourceFormat {
    /// Whether to sniff the encoding from a byte-order mark; defaults to true.
    pub autodetect: Option<bool>,
    /// A character-encoding label from the standard registry.
    pub encoding: Option<String>,
    /// Whether one trailing comma before `]` or `}` is tolerated; defaults to true.
    pub allow_trailing_comma: Option<bool>,
}

/// A resolved configuration: nothing optional is left.
#[derive(Debug)]
pub struct ResolvedConfig {
    pub source: Vec<ResolvedSourceFileConfig>,
}

/// One resolved source entry: the root canonicalized, every default filled.
#[derive(Debug)]
pub struct ResolvedSourceFileConfig {
    pub root: String,
    pub follow_links: bool,
    pub max_depth: usize,
    pub glob: ResolvedSourceGlob,
    pub format: ResolvedSourceFormat,
    pub files: Vec<(String, ResolvedSourceFormat)>,
    pub exclude: Vec<String>,
}

/// A resolved per-file decode policy.
#[derive(Debug, PartialEq)]
pub struct ResolvedSourceFormat {
    pub autodetect: bool,
    /// The canonical name of a registry encoding; `None` lets detection choose.
    pub encoding: Option<String>,
    pub allow_trailing_comma: bool,
}

/// A compiled matcher, or no filename filtering at all.
#[derive(Debug)]
pub enum ResolvedSourceGlob {
    Glob(CompiledGlob),
    Disabled,
}

/// The longest glob pattern the resolver accepts, in characters. The glob
/// compiler aborts, rather than erring, when a pattern's compiled form
/// outgrows its internal size limit; a pattern under this bound compiles to
/// a form far below that limit, and a longer one is refused as invalid
/// before the compiler sees it.
pub const GLOB_PATTERN_MAX_LEN: usize = 4096;

/// Whether a pattern is one the glob compiler accepts; a function of the
/// pattern alone.
pub uninterp spec fn is_valid_glob(pattern: Seq<char>) -> bool;

/// Whether a compiled pattern matches a path; for one pattern, a function of
/// the path alone.
pub uninterp spec fn glob_match(pattern: Seq<char>, path: Seq<char>) -> bool;

#[verifier::external_type_specification]
#[verifier::external_body]
pub struct ExGlobMatcher(globset::GlobMatcher);

/// A compiled glob pattern together with the text it was compiled from.
/// Only `compile` constructs one, so the matcher always belongs to the text.
#[derive(Debug)]
pub struct CompiledGlob {
    pattern: String,
    matcher: globset::GlobMatcher,
}

impl CompiledGlob {
    /// The pattern this matcher was compiled from.
    pub closed spec fn spec_pattern(&self) -> Seq<char> {
        self.pattern@
    }

    /// The pattern this matcher was compiled from.
    pub fn pattern(&self) -> (r: &String)
        ensures
            r@ == self.spec_pattern(),
    {
        &self.pattern
    }

    /// Relies on `globset::GlobBuilder`: whether a pattern compiles is a
    /// function of the pattern alone, and the error's text is its
    /// diagnostic. The separator is literal, so `*` stays within one path
    /// component and `*/*.json` names files exactly one directory down.
    /// `compile_matcher` aborts on a pattern whose compiled form outgrows
    /// the matcher's internal size limit, so only bounded patterns are
    /// admitted; the bound keeps the compiled form orders of magnitude
    /// below that limit.
    #[verifier::external_body]
    pub fn compile(pattern: &str) -> (r: Result<CompiledGlob, String>)
        requires
            pattern@.len() <= GLOB_PATTERN_MAX_LEN,
        ensures
            r is Ok <==> is_valid_glob(pattern@),
            r matches Ok(g) ==> g.spec_pattern() == pattern@,
    {
        match globset::GlobBuilder::new(pattern).literal_separator(true).build() {
            Ok(g) => Ok(CompiledGlob { pattern: pattern.to_string(), matcher: g.compile_matcher() }),
            Err(e) => Err(e.to_string()),
        }
    }

    /// Relies on `globset::GlobMatcher::is_match`: for the pattern this
    /// matcher was compiled from, whether a path matches is a function of
    /// the path alone.
    #[verifier::external_body]
    pub fn is_match(&self, path: &str) -> (r: bool)
        ensures
            r == glob_match(self.spec_pattern(), path@),
    {
        self.matcher.is_match(path)
    }
}

/// Relies on `shellexpand::full`: a leading `~` and `$VAR` references are
/// expanded from the process environment, so which text comes back depends
/// on that environment; text holding neither `~` nor `$` comes back as it
/// was, and only an undefined variable makes an error.
#[verifier::external_body]
fn expand_path(path: &str) -> (r: Option<String>)
    ensures
        r is None ==> exists|i: int|
            0 <= i < path@.len() && (path@[i] == '~' || path@[i] == '$'),
        r matches Some(p) ==> ((forall|i: int|
            0 <= i < path@.len() ==> path@[i] != '~' && path@[i] != '$') ==> p@ == path@),
{
    match shellexpand::full(path) {
        Ok(p) => Some(p.into_owned()),
        Err(_) => None,
    }
}

/// Relies on `std::path::Path::canonicalize`: the result depends on what is
/// on disk, so nothing is promised beyond that a resolved path (an absolute
/// one, per its documentation) is not empty. A path that does not resolve,
/// or does not come back as text, is `None`.
#[verifier::external_body]
fn canonicalize_path(path: &str) -> (r: Option<String>)
    ensures
        r matches Some(p) ==> p@.len() > 0,
{
    match std::path::Path::new(path).canonicalize() {
        Ok(p) => match p.to_str() {
            Some(s) => Some(String::from(s)),
            None => None,
        },
        Err(_) => None,
    }
}

/// Why a configuration is refused.
#[derive(Debug, PartialEq)]
pub enum ConfigError {
    /// The root path cannot be expanded or canonicalized.
    InvalidRoot(String),
    /// A glob pattern the compiler refuses: the pattern, and the compiler's
    /// own diagnostic.
    InvalidGlob(String, String),
    /// An encoding name the label registry does not know.
    InvalidEncoding(String),
}

/// The resolved BOM-autodetection choice of a format table.
pub open spec fn spec_format_autodetect(f: Option<SourceFormat>) -> bool {
    match f {
        None => true,
        Some(g) => match g.autodetect {
            None => true,
            Some(b) => b,
        },
    }
}

/// The resolved trailing-comma choice of a format table.
pub open spec fn spec_format_allow_trailing(f: Option<SourceFormat>) -> bool {
    match f {
        None => true,
        Some(g) => match g.allow_trailing_comma {
            None => true,
            Some(b) => b,
        },
    }
}

/// Whether a format table's encoding label, if any, is one the registry knows.
pub open spec fn spec_format_ok(f: Option<SourceFormat>) -> bool {
    match f {
        None => true,
        Some(g) => match g.encoding {
            None => true,
            Some(l) => crate::reader::encoding_for_label(l@) is Some,
        },
    }
}

/// How a resolved format relates to the table it came from: each field the
/// hardcoded baseline (`autodetect` on, no explicit encoding, trailing
/// commas tolerated) unless the table overrides it, the encoding label
/// replaced by its canonical registry name.
pub open spec fn spec_resolved_format(f: Option<SourceFormat>, r: ResolvedSourceFormat) -> bool {
    &&& r.autodetect == spec_format_autodetect(f)
    &&& r.allow_trailing_comma == spec_format_allow_trailing(f)
    &&& (match f {
        None => r.encoding is None,
        Some(g) => match g.encoding {
            None => r.encoding is None,
            Some(l) => r.encoding matches Some(n) && crate::reader::encoding_for_label(l@)
                == Some(n@),
        },
    })
}

impl SourceFormat {
    /// Resolve one optional format table against the hardcoded baseline:
    /// autodetection on, no explicit encoding, trailing commas tolerated.
    /// An unknown encoding label is refused, and is the only refusal.
    pub fn resolve(format: Option<SourceFormat>) -> (r: Result<
        ResolvedSourceFormat,
        ConfigError,
    >)
        ensures
            r is Ok <==> spec_format_ok(format),
            r matches Ok(rf) ==> spec_resolved_format(format, rf),
            r matches Err(e) ==> format matches Some(g) && g.encoding matches Some(l) && e
                matches ConfigError::InvalidEncoding(l2) && l2@ == l@
                && crate::reader::encoding_for_label(l@) is None,
    {
        match format {
            None => Ok(
                ResolvedSourceFormat {
                    autodetect: true,
                    encoding: None,
                    allow_trailing_comma: true,
                },
            ),
            Some(g) => {
                let encoding = match &g.encoding {
                    None => None,
                    Some(l) => match crate::reader::lookup_encoding(l.as_str()) {
                        Some(n) => Some(n),
                        None => {
                            return Err(ConfigError::InvalidEncoding(l.clone()));
                        },
                    },
                };
                Ok(
                    ResolvedSourceFormat {
                        autodetect: match g.autodetect {
                            None => true,
                            Some(b) => b,
                        },
                        encoding,
                        allow_trailing_comma: match g.allow_trailing_comma {
                            None => true,
                            Some(b) => b,
                        },
                    },
                )
            },
        }
    }
}

impl SourceFormat {
    /// An identical table, field for field.
    pub fn duplicate(&self) -> (r: SourceFormat)
        ensures
            r == *self,
    {
        SourceFormat {
            autodetect: self.autodetect,
            encoding: match &self.encoding {
                None => None,
                Some(s) => Some(s.clone()),
            },
            allow_trailing_comma: self.allow_trailing_comma,
        }
    }
}

impl ResolvedSourceFormat {
    /// An identical policy, field for field.
    pub fn duplicate(&self) -> (r: ResolvedSourceFormat)
        ensures
            r == *self,
    {
        ResolvedSourceFormat {
            autodetect: self.autodetect,
            encoding: match &self.encoding {
                None => None,
                Some(s) => Some(s.clone()),
            },
            allow_trailing_comma: self.allow_trailing_comma,
        }
    }
}

/// How a resolved glob relates to the key it came from: `Enable(false)`
/// switches filtering off, a pattern string is compiled as written, and
/// `Enable(true)` or no key at all compiles the default pattern, files one
/// directory down with a `.json` suffix.
pub open spec fn spec_resolved_glob(g: Option<SourceGlob>, r: ResolvedSourceGlob) -> bool {
    match g {
        Some(SourceGlob::Enable(false)) => r is Disabled,
        Some(SourceGlob::Glob(p)) => r matches ResolvedSourceGlob::Glob(c) && c.spec_pattern()
            == p@,
        _ => r matches ResolvedSourceGlob::Glob(c) && c.spec_pattern() == "*/*.json"@,
    }
}

/// Whether the glob key, if any, holds a pattern within the length bound
/// that the compiler accepts.
pub open spec fn spec_glob_ok(g: Option<SourceGlob>) -> bool {
    match g {
        Some(SourceGlob::Glob(p)) => p@.len() <= GLOB_PATTERN_MAX_LEN && is_valid_glob(p@),
        _ => is_valid_glob("*/*.json"@) || g matches Some(SourceGlob::Enable(false)),
    }
}

/// How one resolved source entry relates to the entry it came from, in every
/// field but the root (which the file system decides): links not followed
/// and depth unbounded unless asked otherwise, the glob and each format
/// table resolved as their own rules say, the exclusion set as written.
pub open spec fn spec_source_resolved(s: SourceFileConfig, r: ResolvedSourceFileConfig) -> bool {
    &&& r.root@.len() > 0
    &&& r.follow_links == (match s.follow_links {
        None => false,
        Some(b) => b,
    })
    &&& r.max_depth == (match s.max_depth {
        None => usize::MAX,
        Some(d) => d,
    })
    &&& spec_resolved_glob(s.glob, r.glob)
    &&& spec_resolved_format(s.format, r.format)
    &&& (match s.files {
        None => r.files@.len() == 0,
        Some(fs) => r.files@.len() == fs@.len() && (forall|i: int|
            0 <= i < fs@.len() ==> (#[trigger] r.files@[i]).0@ == fs@[i].0@
                && spec_resolved_format(Some(fs@[i].1), r.files@[i].1)),
    })
    &&& (match s.exclude {
        None => r.exclude@.len() == 0,
        Some(xs) => r.exclude@.len() == xs@.len() && (forall|i: int|
            0 <= i < xs@.len() ==> #[trigger] r.exclude@[i]@ == xs@[i]@),
    })
}

/// Which error one source entry may be refused with.
pub open spec fn spec_source_error(s: SourceFileConfig, e: ConfigError) -> bool {
    match e {
        ConfigError::InvalidRoot(p) => p@ == s.root@,
        ConfigError::InvalidGlob(p, _) => (!is_valid_glob(p@) || p@.len()
            > GLOB_PATTERN_MAX_LEN) && ((s.glob matches Some(SourceGlob::Glob(p0)) && p0@
            == p@) || p@ == "*/*.json"@),
        ConfigError::InvalidEncoding(l) => crate::reader::encoding_for_label(l@) is None && (
        (s.format matches Some(g) && g.encoding matches Some(l0) && l0@ == l@) || (s.files
            matches Some(fs) && exists|i: int|
            0 <= i < fs@.len() && ((#[trigger] fs@[i].1).encoding matches Some(l0) && l0@
                == l@))),
    }
}

/// Whether every format table of a source entry is acceptable.
pub open spec fn spec_source_formats_ok(s: SourceFileConfig) -> bool {
    &&& spec_format_ok(s.format)
    &&& (match s.files {
        None => true,
        Some(fs) => forall|i: int|
            0 <= i < fs@.len() ==> spec_format_ok(Some(#[trigger] fs@[i].1)),
    })
}

/// Resolve one source entry. Every field but the root is a pure function of
/// the entry; the root is expanded and canonicalized against the file
/// system, and only its failure, a glob the compiler refuses, or an unknown
/// encoding label refuse the entry.
pub fn resolve_source(s: &SourceFileConfig) -> (r: Result<
    ResolvedSourceFileConfig,
    ConfigError,
>)
    ensures
        r matches Ok(rs) ==> spec_source_resolved(*s, rs),
        r matches Err(e) ==> spec_source_error(*s, e),
        !spec_glob_ok(s.glob) ==> r is Err,
        !spec_source_formats_ok(*s) ==> r is Err,
        (spec_glob_ok(s.glob) && spec_source_formats_ok(*s) && r is Err) ==> (r matches Err(
            ConfigError::InvalidRoot(p),
        ) && p@ == s.root@),
{
    let expanded = match expand_path(s.root.as_str()) {
        Some(p) => p,
        None => {
            return Err(ConfigError::InvalidRoot(s.root.clone()));
        },
    };
    let root = match canonicalize_path(expanded.as_str()) {
        Some(p) => p,
        None => {
            return Err(ConfigError::InvalidRoot(s.root.clone()));
        },
    };
    let glob = match &s.glob {
        Some(SourceGlob::Enable(false)) => ResolvedSourceGlob::Disabled,
        Some(SourceGlob::Glob(p)) => {
            if p.as_str().unicode_len() > GLOB_PATTERN_MAX_LEN {
                return Err(
                    ConfigError::InvalidGlob(p.clone(), String::from_str("pattern too long")),
                );
            }
            match CompiledGlob::compile(p.as_str()) {
                Ok(c) => ResolvedSourceGlob::Glob(c),
                Err(d) => {
                    return Err(ConfigError::InvalidGlob(p.clone(), d));
                },
            }
        },
        _ => {
            proof {
                reveal_strlit("*/*.json");
            }
            match CompiledGlob::compile("*/*.json") {
                Ok(c) => ResolvedSourceGlob::Glob(c),
                Err(d) => {
                    return Err(ConfigError::InvalidGlob(String::from_str("*/*.json"), d));
                },
            }
        },
    };
    let fmt_arg: Option<SourceFormat> = match &s.format {
        None => None,
        Some(g) => Some(g.duplicate()),
    };
    proof {
        assert(fmt_arg == s.format);
    }
    let format = match SourceFormat::resolve(fmt_arg) {
        Ok(f) => f,
        Err(e) => {
            return Err(e);
        },
    };
    let mut files: Vec<(String, ResolvedSourceFormat)> = Vec::new();
    match &s.files {
        None => {},
        Some(fs) => {
            let n = fs.len();
            let mut k: usize = 0;
            while k < n
                invariant
                    n == fs@.len(),
                    k <= n,
                    s.files matches Some(fs0) && fs0@ == fs@,
                    files@.len() == k,
                    forall|i: int| 0 <= i < k ==> spec_format_ok(Some(#[trigger] fs@[i].1)),
                    forall|i: int|
                        0 <= i < k ==> (#[trigger] files@[i]).0@ == fs@[i].0@
                            && spec_resolved_format(Some(fs@[i].1), files@[i].1),
                decreases n - k,
            {
                let entry = &fs[k];
                let dup = entry.1.duplicate();
                proof {
                    assert(dup == fs@[k as int].1);
                }
                let rf = match SourceFormat::resolve(Some(dup)) {
                    Ok(f) => f,
                    Err(e) => {
                        proof {
                            assert(fs@[k as int].1.encoding is Some);
                            assert(spec_source_error(*s, e));
                        }
                        return Err(e);
                    },
                };
                let key = entry.0.clone();
                proof {
                    assert(key == fs@[k as int].0);
                }
                files.push((key, rf));
                proof {
                    assert(files@[k as int].0@ == fs@[k as int].0@);
                    assert(spec_resolved_format(Some(fs@[k as int].1), files@[k as int].1));
                }
                k = k + 1;
            }
        },
    }
    let mut exclude: Vec<String> = Vec::new();
    match &s.exclude {
        None => {},
        Some(xs) => {
            let n = xs.len();
            let mut k: usize = 0;
            while k < n
                invariant
                    n == xs@.len(),
                    k <= n,
                    s.exclude matches Some(xs0) && xs0@ == xs@,
                    exclude@.len() == k,
                    forall|i: int| 0 <= i < k ==> #[trigger] exclude@[i]@ == xs@[i]@,
                decreases n - k,
            {
                exclude.push(xs[k].clone());
                k = k + 1;
            }
        },
    }
    proof {
        assert(spec_glob_ok(s.glob));
        assert(spec_source_formats_ok(*s));
    }
    Ok(
        ResolvedSourceFileConfig {
            root,
            follow_links: match s.follow_links {
                None => false,
                Some(b) => b,
            },
            max_depth: match s.max_depth {
                None => usize::MAX,
                Some(d) => d,
            },
            glob,
            format,
            files,
            exclude,
        },
    )
}

/// The table a resolved format policy serializes back to.
pub open spec fn spec_resolved_format_json(f: ResolvedSourceFormat) -> JsonV {
    JsonV::Obj(
        seq![
            ("autodetect"@, JsonV::Bool(f.autodetect)),
            (
                "encoding"@,
                match f.encoding {
                    None => JsonV::Null,
                    Some(n) => JsonV::Str(n@),
                },
            ),
            ("allow_trailing_comma"@, JsonV::Bool(f.allow_trailing_comma)),
        ],
    )
}

impl ResolvedSourceFormat {
    /// The diagnostic form of this policy: a table with every field written.
    pub fn to_json(&self) -> (r: JsonValue)
        ensures
            r.deep() == spec_resolved_format_json(*self),
    {
        let mut fields: Vec<(String, JsonValue)> = Vec::new();
        fields.push((String::from_str("autodetect"), JsonValue::Bool(self.autodetect)));
        fields.push(
            (
                String::from_str("encoding"),
                match &self.encoding {
                    None => JsonValue::Null,
                    Some(n) => JsonValue::Str(n.clone()),
                },
            ),
        );
        fields.push(
            (
                String::from_str("allow_trailing_comma"),
                JsonValue::Bool(self.allow_trailing_comma),
            ),
        );
        let r = JsonValue::Obj(fields);
        proof {
            crate::json::lemma_deep_fields(fields@);
            assert(crate::json::deep_fields(fields@) =~= spec_resolved_format_json(
                *self,
            )->Obj_0);
        }
        r
    }
}

/// The depth bound's diagnostic form: a number, written as a lexeme where
/// it does not fit the tree's integer width.
pub open spec fn spec_depth_json(d: usize) -> JsonV {
    if d <= 0x7fff_ffff_ffff_ffff {
        JsonV::Int(d as int)
    } else {
        JsonV::Num(crate::json::dec_digits(d as int))
    }
}

/// The entry a resolved source serializes back to: the same keys the user
/// writes, every one filled, the glob rendered as its pattern or `false`.
pub open spec fn spec_resolved_source_json(s: ResolvedSourceFileConfig) -> JsonV {
    JsonV::Obj(
        seq![
            ("root"@, JsonV::Str(s.root@)),
            ("follow_links"@, JsonV::Bool(s.follow_links)),
            ("max_depth"@, spec_depth_json(s.max_depth)),
            (
                "glob"@,
                match s.glob {
                    ResolvedSourceGlob::Glob(c) => JsonV::Str(c.spec_pattern()),
                    ResolvedSourceGlob::Disabled => JsonV::Bool(false),
                },
            ),
            ("format"@, spec_resolved_format_json(s.format)),
            (
                "files"@,
                JsonV::Obj(
                    Seq::new(
                        s.files@.len(),
                        |i: int|
                            (s.files@[i].0@, spec_resolved_format_json(s.files@[i].1)),
                    ),
                ),
            ),
            (
                "exclude"@,
                JsonV::Arr(Seq::new(s.exclude@.len(), |i: int| JsonV::Str(s.exclude@[i]@))),
            ),
        ],
    )
}

impl ResolvedSourceFileConfig {
    /// The diagnostic form of this source entry, in the shape it was
    /// configured in, with every default written out.
    pub fn to_json(&self) -> (r: JsonValue)
        ensures
            r.deep() == spec_resolved_source_json(*self),
    {
        let depth_json: JsonValue = if self.max_depth as u64 <= 0x7fff_ffff_ffff_ffffu64 {
            JsonValue::Int(self.max_depth as i64)
        } else {
            JsonValue::Num(crate::json::decimal_digits_string(self.max_depth as u64))
        };
        let mut file_fields: Vec<(String, JsonValue)> = Vec::new();
        let n = self.files.len();
        let mut k: usize = 0;
        while k < n
            invariant
                k <= n,
                n == self.files@.len(),
                file_fields@.len() == k,
                forall|i: int|
                    0 <= i < k ==> (#[trigger] file_fields@[i]).0@ == self.files@[i].0@
                        && file_fields@[i].1.deep() == spec_resolved_format_json(
                        self.files@[i].1,
                    ),
            decreases n - k,
        {
            file_fields.push((self.files[k].0.clone(), self.files[k].1.to_json()));
            k = k + 1;
        }
        let mut excl: Vec<JsonValue> = Vec::new();
        let m = self.exclude.len();
        let mut k2: usize = 0;
        while k2 < m
            invariant
                k2 <= m,
                m == self.exclude@.len(),
                excl@.len() == k2,
                forall|i: int|
                    0 <= i < k2 ==> (#[trigger] excl@[i]) == JsonValue::Str(self.exclude@[i]),
            decreases m - k2,
        {
            excl.push(JsonValue::Str(self.exclude[k2].clone()));
            k2 = k2 + 1;
        }
        let mut fields: Vec<(String, JsonValue)> = Vec::new();
        fields.push((String::from_str("root"), JsonValue::Str(self.root.clone())));
        fields.push((String::from_str("follow_links"), JsonValue::Bool(self.follow_links)));
        fields.push((String::from_str("max_depth"), depth_json));
        fields.push((String::from_str("glob"), self.glob.to_json()));
        fields.push((String::from_str("format"), self.format.to_json()));
        fields.push((String::from_str("files"), JsonValue::Obj(file_fields)));
        fields.push((String::from_str("exclude"), JsonValue::Arr(excl)));
        let r = JsonValue::Obj(fields);
        proof {
            crate::json::lemma_deep_fields(fields@);
            crate::json::lemma_deep_fields(file_fields@);
            crate::json::lemma_deep_elems(excl@);
            assert(crate::json::deep_fields(file_fields@) =~= Seq::new(
                self.files@.len(),
                |i: int| (self.files@[i].0@, spec_resolved_format_json(self.files@[i].1)),
            ));
            assert(crate::json::deep_elems(excl@) =~= Seq::new(
                self.exclude@.len(),
                |i: int| JsonV::Str(self.exclude@[i]@),
            ));
            assert(crate::json::deep_fields(fields@) =~= spec_resolved_source_json(
                *self,
            )->Obj_0);
        }
        r
    }
}

/// The document a resolved configuration serializes back to.
pub open spec fn spec_resolved_config_json(c: ResolvedConfig) -> JsonV {
    JsonV::Obj(
        seq![
            (
                "source"@,
                JsonV::Arr(
                    Seq::new(
                        c.source@.len(),
                        |i: int| spec_resolved_source_json(c.source@[i]),
                    ),
                ),
            ),
        ],
    )
}

impl ResolvedConfig {
    /// The diagnostic form of the whole resolved configuration.
    pub fn to_json(&self) -> (r: JsonValue)
        ensures
            r.deep() == spec_resolved_config_json(*self),
    {
        let mut entries: Vec<JsonValue> = Vec::new();
        let n = self.source.len();
        let mut k: usize = 0;
        while k < n
            invariant
                k <= n,
                n == self.source@.len(),
                entries@.len() == k,
                forall|i: int|
                    0 <= i < k ==> (#[trigger] entries@[i]).deep() == spec_resolved_source_json(
                        self.source@[i],
                    ),
            decreases n - k,
        {
            entries.push(self.source[k].to_json());
            k = k + 1;
        }
        let mut fields: Vec<(String, JsonValue)> = Vec::new();
        fields.push((String::from_str("source"), JsonValue::Arr(entries)));
        let r = JsonValue::Obj(fields);
        proof {
            crate::json::lemma_deep_fields(fields@);
            crate::json::lemma_deep_elems(entries@);
            assert(crate::json::deep_elems(entries@) =~= Seq::new(
                self.source@.len(),
                |i: int| spec_resolved_source_json(self.source@[i]),
            ));
            assert(crate::json::deep_fields(fields@) =~= spec_resolved_config_json(
                *self,
            )->Obj_0);
        }
        r
    }
}

/// The source entries of a configuration, written or not.
pub open spec fn spec_config_sources(c: Config) -> Seq<SourceFileConfig> {
    match c.source {
        None => Seq::empty(),
        Some(ss) => ss@,
    }
}

impl Config {
    /// Resolve a whole configuration: each source entry on its own, in
    /// order, stopping at the first refused one; no entries at all resolve
    /// to no sources.
    #[verifier::loop_isolation(false)]
    pub fn resolve(self) -> (r: Result<ResolvedConfig, ConfigError>)
        ensures
            r matches Ok(rc) ==> rc.source@.len() == spec_config_sources(self).len() && (
            forall|i: int|
                0 <= i < spec_config_sources(self).len() ==> spec_source_resolved(
                    spec_config_sources(self)[i],
                    #[trigger] rc.source@[i],
                )),
            r is Ok ==> (forall|i: int|
                0 <= i < spec_config_sources(self).len() ==> spec_glob_ok(
                    (#[trigger] spec_config_sources(self)[i]).glob,
                ) && spec_source_formats_ok(spec_config_sources(self)[i])),
            r matches Err(e) ==> exists|i: int|
                0 <= i < spec_config_sources(self).len() && spec_source_error(
                    #[trigger] spec_config_sources(self)[i],
                    e,
                ),
    {
        match self.source {
            None => Ok(ResolvedConfig { source: Vec::new() }),
            Some(sources) => {
                let mut out: Vec<ResolvedSourceFileConfig> = Vec::new();
                let n = sources.len();
                let mut k: usize = 0;
                while k < n
                    invariant
                        n == sources@.len(),
                        k <= n,
                        out@.len() == k,
                        forall|i: int|
                            0 <= i < k ==> spec_source_resolved(
                                sources@[i],
                                #[trigger] out@[i],
                            ),
                        forall|i: int|
                            0 <= i < k ==> spec_glob_ok((#[trigger] sources@[i]).glob)
                                && spec_source_formats_ok(sources@[i]),
                    decreases n - k,
                {
                    match resolve_source(&sources[k]) {
                        Ok(rs) => {
                            out.push(rs);
                        },
                        Err(e) => {
                            proof {
                                assert(spec_config_sources(self) == sources@);
                                assert(spec_source_error(spec_config_sources(self)[k as int], e));
                            }
                            return Err(e);
                        },
                    }
                    k = k + 1;
                }
                Ok(ResolvedConfig { source: out })
            },
        }
    }
}

/// Whenever a source entry with only its root set resolves, every defaulted
/// field comes out at its documented default: links not followed, depth
/// unbounded, the default glob pattern compiled, no per-file overrides, no
/// exclusions, and the baseline format policy.
pub proof fn lemma_minimal_source_defaults(s: SourceFileConfig, r: ResolvedSourceFileConfig)
    requires
        s.follow_links is None,
        s.max_depth is None,
        s.glob is None,
        s.format is None,
        s.files is None,
        s.exclude is None,
        spec_source_resolved(s, r),
    ensures
        !r.follow_links,
        r.max_depth == usize::MAX,
        r.glob matches ResolvedSourceGlob::Glob(c) && c.spec_pattern() == "*/*.json"@,
        r.format.autodetect,
        r.format.encoding is None,
        r.format.allow_trailing_comma,
        r.files@.len() == 0,
        r.exclude@.len() == 0,
{
}

impl SourceGlob {
    /// Accept a pattern string or a boolean switch, as the `glob` key allows.
    pub fn decode(v: &JsonValue) -> (r: Result<SourceGlob, crate::coerce::CoerceError>)
        ensures
            match v.deep() {
                JsonV::Str(t) => r matches Ok(SourceGlob::Glob(p)) && p@ == t,
                JsonV::Bool(b) => r == Ok::<SourceGlob, crate::coerce::CoerceError>(
                    SourceGlob::Enable(b),
                ),
                _ => r matches Err(e) && e == crate::coerce::CoerceError::WrongShape,
            },
    {
        match v {
            JsonValue::Str(t) => Ok(SourceGlob::Glob(t.clone())),
            JsonValue::Bool(b) => Ok(SourceGlob::Enable(*b)),
            _ => Err(crate::coerce::CoerceError::WrongShape),
        }
    }
}

impl ResolvedSourceGlob {
    /// The diagnostic form a resolved glob serializes back to: its source
    /// pattern string, or `false` when filtering is off.
    pub fn to_json(&self) -> (r: JsonValue)
        ensures
            match self {
                ResolvedSourceGlob::Glob(c) => r.deep() == JsonV::Str(c.spec_pattern()),
                ResolvedSourceGlob::Disabled => r.deep() == JsonV::Bool(false),
            },
    {
        match self {
            ResolvedSourceGlob::Glob(c) => JsonValue::Str(c.pattern().clone()),
            ResolvedSourceGlob::Disabled => JsonValue::Bool(false),
        }
    }

    /// Accept a pattern string (compiled as written, within the length
    /// bound) or `false` (filtering off); `true` and anything else are
    /// refused, as only those two forms serialize out.
    pub fn decode(v: &JsonValue) -> (r: Result<ResolvedSourceGlob, ConfigError>)
        ensures
            match v.deep() {
                JsonV::Str(t) => {
                    &&& (r matches Ok(g) ==> g matches ResolvedSourceGlob::Glob(c)
                        && c.spec_pattern() == t)
                    &&& (r is Ok <==> t.len() <= GLOB_PATTERN_MAX_LEN && is_valid_glob(t))
                    &&& (r matches Err(e) ==> e matches ConfigError::InvalidGlob(p, _) && p@
                        == t)
                },
                JsonV::Bool(b) => if b {
                    r matches Err(e) && e matches ConfigError::InvalidGlob(p, _) && p@
                        == "true"@
                } else {
                    r matches Ok(g) && g is Disabled
                },
                _ => r matches Err(e) && e matches ConfigError::InvalidGlob(..),
            },
    {
        match v {
            JsonValue::Str(t) => {
                if t.as_str().unicode_len() > GLOB_PATTERN_MAX_LEN {
                    return Err(
                        ConfigError::InvalidGlob(
                            t.clone(),
                            String::from_str("pattern too long"),
                        ),
                    );
                }
                match CompiledGlob::compile(t.as_str()) {
                    Ok(c) => Ok(ResolvedSourceGlob::Glob(c)),
                    Err(d) => Err(ConfigError::InvalidGlob(t.clone(), d)),
                }
            },
            JsonValue::Bool(b) => {
                if *b {
                    Err(
                        ConfigError::InvalidGlob(
                            String::from_str("true"),
                            String::from_str("expected false or a glob pattern"),
                        ),
                    )
                } else {
                    Ok(ResolvedSourceGlob::Disabled)
                }
            },
            _ => Err(
                ConfigError::InvalidGlob(
                    String::new(),
                    String::from_str("expected a glob pattern or false"),
                ),
            ),
        }
    }
}

} // verus!
