//! Configuration: the raw file as parsed, its defaults, and the validation
//! that turns it into the resolved [`Config`] the rest of the program sees.
//! Reading the file and the environment happens outside; this module
//! decides what the values mean.
use vstd::prelude::*;
pub use crate::ftypes::FieldType;
use crate::pattern::{spec_capture_names, texts_view, Pattern};
use crate::text::{
    chars_of, find_char, has_char, index_of, lemma_text_lt_total, lemma_text_lt_trans, push_str, str_eq, string_of_range,
    text_less, text_lt,
};
use crate::vault::{compose, compose_name, debug_str, spec_debug_str};

verus! {

/// Default `[vault]` sub-paths, relative to the vault root.
pub const DEFAULT_FEATURES_DIR: &'static str = "notes/features";

pub const DEFAULT_PEOPLE_DIR: &'static str = "notes/people";

/// Default `[tickets]` values.
pub const DEFAULT_BRANCH_PATTERN: &'static str = "^(?<FeatureType>[A-Z]+)-(?<TicketNumber>\\d+)";

pub const DEFAULT_ID_TEMPLATE: &'static str = "{FeatureType}-{TicketNumber}";

/// Default QuickAdd template path, relative to the vault root.
pub const DEFAULT_TEMPLATE_PATH: &'static str = "templates/Feature.md";

pub open spec fn strings_view(s: Seq<String>) -> Seq<Seq<char>> {
    s.map_values(|x: String| x@)
}

/// The frontmatter fields owned by Obsidian/Meta Bind that ocli refuses
/// to edit unless configured otherwise.
pub open spec fn spec_default_ignore() -> Seq<Seq<char>> {
    seq!["relates-to"@, "blocked-by"@]
}

pub fn default_ignore() -> (r: Vec<String>)
    ensures
        strings_view(r@) == spec_default_ignore(),
{
    let mut v: Vec<String> = Vec::new();
    v.push(String::from_str("relates-to"));
    v.push(String::from_str("blocked-by"));
    assert(strings_view(v@) =~= spec_default_ignore());
    v
}

pub fn default_features_dir() -> (r: String)
    ensures
        r@ == DEFAULT_FEATURES_DIR@,
{
    String::from_str(DEFAULT_FEATURES_DIR)
}

pub fn default_people_dir() -> (r: String)
    ensures
        r@ == DEFAULT_PEOPLE_DIR@,
{
    String::from_str(DEFAULT_PEOPLE_DIR)
}

/// The command that owns a managed frontmatter field, if it is one:
/// `status` and `done` belong to `ocli status`; `Created`, `repo` and
/// `owner` to `ocli new`.
pub open spec fn managed_owner(name: Seq<char>) -> Option<Seq<char>> {
    if name == "status"@ || name == "done"@ {
        Some("ocli status"@)
    } else if name == "Created"@ || name == "repo"@ || name == "owner"@ {
        Some("ocli new"@)
    } else {
        None
    }
}

/// The owning command of a managed frontmatter field.
pub fn managed_field_owner(name: &str) -> (r: Option<&'static str>)
    ensures
        match r {
            Some(o) => managed_owner(name@) == Some(o@),
            None => managed_owner(name@) is None,
        },
{
    if str_eq(name, "status") || str_eq(name, "done") {
        Some("ocli status")
    } else if str_eq(name, "Created") || str_eq(name, "repo") || str_eq(name, "owner") {
        Some("ocli new")
    } else {
        None
    }
}

/// Why the config file could not be had. A missing file is recoverable
/// when the vault root comes from elsewhere.
#[derive(Debug)]
pub enum ConfigFileError {
    FieldTypeError(String),
    ConfigFileNotFound { path: String, error: String },
    Io { path: String, error: String },
    Parse { path: String, source: String },
}

/// Why a parsed config is not valid.
#[derive(Debug)]
pub enum ConfigError {
    ManagedField { field: String, owner: &'static str },
    IgnoreTypeCollision { field: String },
    Regex { pattern: String, source: String },
    UnnamedCaptures,
    NoNamedCaptures,
    MalformedIdTemplate { template: String },
    UnknownPlaceholder { name: String },
    RelativeRoot(String),
    MissingVaultRoot,
}

/// `[vault]`: the root (resolved from `--vault` > `OCLI_VAULT` > this
/// file) and the sub-paths relative to it.
#[derive(Debug)]
pub struct VaultDirs {
    pub root: Option<String>,
    pub features_dir: String,
    pub people_dir: String,
}

impl Default for VaultDirs {
    fn default() -> (r: VaultDirs)
        ensures
            r.root is None,
            r.features_dir@ == DEFAULT_FEATURES_DIR@,
            r.people_dir@ == DEFAULT_PEOPLE_DIR@,
    {
        VaultDirs { root: None, features_dir: default_features_dir(), people_dir: default_people_dir() }
    }
}

/// `[frontmatter]`: the fields ocli never writes, and the declared type of
/// each other field, in name order.
#[derive(Debug)]
pub struct FrontmatterCfg {
    pub ignore: Vec<String>,
    pub types: Vec<(String, FieldType)>,
}

impl Default for FrontmatterCfg {
    fn default() -> (r: FrontmatterCfg)
        ensures
            strings_view(r.ignore@) == spec_default_ignore(),
            r.types@.len() == 0,
    {
        FrontmatterCfg { ignore: default_ignore(), types: Vec::new() }
    }
}

/// `[tickets]`: the branch pattern and the id template over its groups.
#[derive(Debug)]
pub struct TicketCfg {
    pub branch_pattern: String,
    pub id: String,
}

impl Default for TicketCfg {
    fn default() -> (r: TicketCfg)
        ensures
            r.branch_pattern@ == DEFAULT_BRANCH_PATTERN@,
            r.id@ == DEFAULT_ID_TEMPLATE@,
    {
        TicketCfg {
            branch_pattern: String::from_str(DEFAULT_BRANCH_PATTERN),
            id: String::from_str(DEFAULT_ID_TEMPLATE),
        }
    }
}

/// How a section's entries are written: a timestamped log line
/// (`- YYYY-MM-DD HH:mm — text`) or a checklist item (`- [ ] text`).
#[derive(Debug, Clone, Copy, PartialEq, Eq, Structural)]
pub enum SectionFormat {
    Log,
    List,
}

/// One declared section: its full heading line (the `#` marker gives the
/// level) and the format of its entries.
#[derive(Debug)]
pub struct SectionSpec {
    pub heading: String,
    pub format: SectionFormat,
}

/// `[sections]`: the section vocabulary, keyed by the name the `section`
/// command takes, in key order. Every section is declared; there are no
/// defaults.
#[derive(Debug)]
pub struct SectionsCfg {
    pub entries: Vec<(String, SectionSpec)>,
}

impl Default for SectionsCfg {
    fn default() -> (r: SectionsCfg)
        ensures
            r.entries@.len() == 0,
    {
        SectionsCfg { entries: Vec::new() }
    }
}

/// The index of the first entry keyed `name`.
pub open spec fn section_index(entries: Seq<(String, SectionSpec)>, name: Seq<char>, k: int) -> Option<int>
    decreases entries.len() - k,
{
    if k < 0 || k >= entries.len() {
        None
    } else if entries[k].0@ == name {
        Some(k)
    } else {
        section_index(entries, name, k + 1)
    }
}

impl SectionsCfg {
    /// The section declared under `name`.
    pub open spec fn get_spec(&self, name: Seq<char>) -> Option<SectionSpec> {
        match section_index(self.entries@, name, 0) {
            Some(i) => Some(self.entries@[i].1),
            None => None,
        }
    }

    /// The section declared under `name`.
    pub fn get(&self, name: &str) -> (r: Option<&SectionSpec>)
        ensures
            match section_index(self.entries@, name@, 0) {
                Some(i) => r == Some(&self.entries@[i].1),
                None => r is None,
            },
    {
        let mut i: usize = 0;
        while i < self.entries.len()
            invariant
                i <= self.entries@.len(),
                section_index(self.entries@, name@, 0) == section_index(self.entries@, name@, i as int),
            decreases self.entries@.len() - i,
        {
            if str_eq(self.entries[i].0.as_str(), name) {
                return Some(&self.entries[i].1);
            }
            i = i + 1;
        }
        None
    }
}

/// `[template]`: the QuickAdd template path relative to the vault root,
/// and static `{{VALUE:Name}}` defaults, taken as literal text, in name
/// order.
#[derive(Debug)]
pub struct TemplateCfg {
    pub path: String,
    pub values: Vec<(String, String)>,
}

impl Default for TemplateCfg {
    fn default() -> (r: TemplateCfg)
        ensures
            r.path@ == DEFAULT_TEMPLATE_PATH@,
            r.values@.len() == 0,
    {
        TemplateCfg { path: String::from_str(DEFAULT_TEMPLATE_PATH), values: Vec::new() }
    }
}

/// The config file as parsed, before validation.
#[derive(Debug)]
pub struct ConfigFile {
    pub vault: VaultDirs,
    pub frontmatter: FrontmatterCfg,
    pub template: TemplateCfg,
    pub tickets: TicketCfg,
    pub sections: SectionsCfg,
}

/// `f` is the configuration file with every table at its default and no
/// vault root.
pub open spec fn default_file(f: ConfigFile) -> bool {
    &&& f.vault.root is None
    &&& f.vault.features_dir@ == DEFAULT_FEATURES_DIR@
    &&& f.vault.people_dir@ == DEFAULT_PEOPLE_DIR@
    &&& strings_view(f.frontmatter.ignore@) == spec_default_ignore()
    &&& f.frontmatter.types@.len() == 0
    &&& f.template.path@ == DEFAULT_TEMPLATE_PATH@
    &&& f.template.values@.len() == 0
    &&& f.tickets.branch_pattern@ == DEFAULT_BRANCH_PATTERN@
    &&& f.tickets.id@ == DEFAULT_ID_TEMPLATE@
    &&& f.sections.entries@.len() == 0
}

impl Default for ConfigFile {
    fn default() -> (r: ConfigFile)
        ensures
            default_file(r),
    {
        ConfigFile {
            vault: VaultDirs::default(),
            frontmatter: FrontmatterCfg::default(),
            template: TemplateCfg::default(),
            tickets: TicketCfg::default(),
            sections: SectionsCfg::default(),
        }
    }
}

/// The resolved vault paths: the root is always present.
#[derive(Debug)]
pub struct ResolvedVault {
    pub root: String,
    pub features_dir: String,
    pub people_dir: String,
}

/// The compiled ticket config: the branch pattern compiled once, the id
/// template checked against its named groups.
pub struct Tickets {
    pub pattern: Pattern,
    pub id: String,
}

impl Tickets {
    /// The ticket id for a branch match: each `{name}` of the id template
    /// replaced by the text of the named group.
    pub fn id_for(&self, caps: &Vec<Option<String>>) -> (r: String)
        ensures
            r@ == compose(
                self.id@,
                Pattern::names_of(self.pattern@),
                texts_view(caps@),
                Pattern::names_of(self.pattern@).len() as int,
            ),
    {
        compose_name(self.id.as_str(), &self.pattern, caps)
    }
}

/// The resolved, validated configuration.
pub struct Config {
    pub vault: ResolvedVault,
    pub frontmatter: FrontmatterCfg,
    pub template: TemplateCfg,
    pub tickets: Tickets,
    pub sections: SectionsCfg,
}

/// Where a config path came from: it decides what a missing file means.
#[derive(Debug, Clone, Copy, PartialEq, Eq, Structural)]
pub enum ConfigSource {
    /// The standard per-user location.
    Default,
    /// The `OCLI_CONFIG` environment variable.
    EnvOverride,
}

/// The `{Name}` placeholders of an id template, in order; `None` when a
/// brace is unbalanced or a name is empty.
pub open spec fn spec_extract(t: Seq<char>) -> Option<Seq<Seq<char>>>
    decreases t.len(),
{
    let start = index_of(t, '{');
    if start >= t.len() {
        Some(Seq::empty())
    } else {
        let rest = t.skip(start + 1);
        let close = index_of(rest, '}');
        proof {
            crate::text::lemma_index_of_from(t, '{', 0);
            crate::text::lemma_index_of_from(rest, '}', 0);
        }
        if close >= rest.len() || close == 0 {
            None
        } else {
            match spec_extract(rest.skip(close + 1)) {
                Some(names) => Some(seq![rest.take(close)] + names),
                None => None,
            }
        }
    }
}

/// Extracts the `{Name}` placeholder names from an id template.
pub fn extract_placeholders(template: &str) -> (r: Result<Vec<String>, ()>)
    ensures
        match r {
            Ok(names) => spec_extract(template@) == Some(strings_view(names@)),
            Err(()) => spec_extract(template@) is None,
        },
{
    let v = chars_of(template);
    let n = v.len();
    let mut out: Vec<String> = Vec::new();
    let mut cur: usize = 0;
    assert(v@.skip(0) =~= v@);
    while cur < n
        invariant
            v@ == template@,
            n == v@.len(),
            cur <= n,
            spec_extract(v@) == match spec_extract(v@.skip(cur as int)) {
                Some(ns) => Some(strings_view(out@) + ns),
                None => None::<Seq<Seq<char>>>,
            },
        decreases n - cur,
    {
        let ghost t = v@.skip(cur as int);
        assert(v@.subrange(cur as int, n as int) =~= t);
        proof {
            crate::text::lemma_index_of_from(t, '{', 0);
        }
        let s = find_char(&v, cur, n, '{');
        if s == n {
            assert(strings_view(out@) + Seq::<Seq<char>>::empty() =~= strings_view(out@));
            return Ok(out);
        }
        let ghost rest = t.skip(s - cur + 1);
        assert(rest =~= v@.subrange(s + 1, n as int));
        proof {
            crate::text::lemma_index_of_from(rest, '}', 0);
        }
        let c = find_char(&v, s + 1, n, '}');
        if c == n || c == s + 1 {
            return Err(());
        }
        let name = string_of_range(&v, s + 1, c);
        assert(rest.take(c - (s + 1)) =~= v@.subrange(s + 1, c as int));
        assert(rest.skip(c - (s + 1) + 1) =~= v@.skip(c + 1));
        proof {
            if let Some(ns) = spec_extract(v@.skip(c + 1)) {
                assert(strings_view(out@) + (seq![name@] + ns) =~= strings_view(out@.push(name)) + ns);
            }
        }
        out.push(name);
        cur = c + 1;
    }
    assert(v@.skip(cur as int) =~= Seq::<char>::empty());
    assert(strings_view(out@) + Seq::<Seq<char>>::empty() =~= strings_view(out@));
    Ok(out)
}

/// Why validation refuses a config file, as plain values.
pub enum ConfigFault {
    MissingVaultRoot,
    RelativeRoot { root: Seq<char> },
    ManagedField { field: Seq<char>, owner: Seq<char> },
    IgnoreTypeCollision { field: Seq<char> },
    Regex { pattern: Seq<char> },
    UnnamedCaptures,
    NoNamedCaptures,
    MalformedIdTemplate { template: Seq<char> },
    UnknownPlaceholder { name: Seq<char> },
}

pub open spec fn in_list(l: Seq<String>, n: Seq<char>) -> bool {
    exists|i: int| 0 <= i < l.len() && #[trigger] l[i]@ == n
}

/// `n` names a managed field or a field on the ignore list.
pub open spec fn refused_type_key(ignore: Seq<String>, n: Seq<char>) -> bool {
    managed_owner(n) is Some || in_list(ignore, n)
}

/// Why declaring a type for `n` is refused.
pub open spec fn type_fault_for(n: Seq<char>) -> ConfigFault {
    match managed_owner(n) {
        Some(o) => ConfigFault::ManagedField { field: n, owner: o },
        None => ConfigFault::IgnoreTypeCollision { field: n },
    }
}

/// The least refused key among `types[k..]` and `best`, in the order Rust
/// sorts strings.
pub open spec fn least_refused(types: Seq<(String, FieldType)>, ignore: Seq<String>, k: int, best: Option<Seq<char>>) -> Option<
    Seq<char>,
>
    decreases types.len() - k,
{
    if k < 0 || k >= types.len() {
        best
    } else {
        let n = types[k].0@;
        let next = if refused_type_key(ignore, n) && (best matches Some(b) ==> text_lt(n, b)) {
            Some(n)
        } else {
            best
        };
        least_refused(types, ignore, k + 1, next)
    }
}

/// The refusal of the declared types: that of the least refused key, the
/// declared types being a map walked in key order.
pub open spec fn first_type_fault(types: Seq<(String, FieldType)>, ignore: Seq<String>) -> Option<ConfigFault> {
    match least_refused(types, ignore, 0, None) {
        Some(n) => Some(type_fault_for(n)),
        None => None,
    }
}

/// A group other than the whole match has no name.
pub open spec fn has_unnamed(names: Seq<Option<Seq<char>>>) -> bool {
    exists|i: int| 1 <= i < names.len() && #[trigger] names[i] is None
}

pub open spec fn is_group_name(names: Seq<Option<Seq<char>>>, n: Seq<char>) -> bool {
    exists|i: int| 0 <= i < names.len() && #[trigger] names[i] == Some(n)
}

/// The first placeholder, from `k` on, that names no group.
pub open spec fn first_unknown(ps: Seq<Seq<char>>, names: Seq<Option<Seq<char>>>, k: int) -> Option<int>
    decreases ps.len() - k,
{
    if k < 0 || k >= ps.len() {
        None
    } else if !is_group_name(names, ps[k]) {
        Some(k)
    } else {
        first_unknown(ps, names, k + 1)
    }
}

/// The first check a config file fails, in order: a vault root is
/// present and absolute; no declared type names a managed or ignored
/// field; the branch pattern compiles, names every group and has at
/// least one; the id template is well formed and names only groups of
/// the pattern.
pub open spec fn validation_fault(f: ConfigFile, root_absolute: bool) -> Option<ConfigFault> {
    match f.vault.root {
        None => Some(ConfigFault::MissingVaultRoot),
        Some(root) => if !root_absolute {
            Some(ConfigFault::RelativeRoot { root: root@ })
        } else {
            match first_type_fault(f.frontmatter.types@, f.frontmatter.ignore@) {
                Some(x) => Some(x),
                None => match spec_capture_names(f.tickets.branch_pattern@) {
                    None => Some(ConfigFault::Regex { pattern: f.tickets.branch_pattern@ }),
                    Some(names) => if has_unnamed(names) {
                        Some(ConfigFault::UnnamedCaptures)
                    } else if names.len() <= 1 {
                        Some(ConfigFault::NoNamedCaptures)
                    } else {
                        match spec_extract(f.tickets.id@) {
                            None => Some(ConfigFault::MalformedIdTemplate { template: f.tickets.id@ }),
                            Some(ps) => match first_unknown(ps, names, 0) {
                                Some(j) => Some(ConfigFault::UnknownPlaceholder { name: ps[j] }),
                                None => None,
                            },
                        }
                    },
                },
            }
        },
    }
}

/// The error a fault is reported as.
pub open spec fn reports_config(e: ConfigError, f: ConfigFault) -> bool {
    match f {
        ConfigFault::MissingVaultRoot => e is MissingVaultRoot,
        ConfigFault::RelativeRoot { root } => e matches ConfigError::RelativeRoot(r) && r@ == root,
        ConfigFault::ManagedField { field, owner } => e matches ConfigError::ManagedField {
            field: x,
            owner: o,
        } && x@ == field && o@ == owner,
        ConfigFault::IgnoreTypeCollision { field } => e matches ConfigError::IgnoreTypeCollision {
            field: x,
        } && x@ == field,
        ConfigFault::Regex { pattern } => e matches ConfigError::Regex { pattern: p, .. } && p@
            == pattern,
        ConfigFault::UnnamedCaptures => e is UnnamedCaptures,
        ConfigFault::NoNamedCaptures => e is NoNamedCaptures,
        ConfigFault::MalformedIdTemplate { template } => e matches ConfigError::MalformedIdTemplate {
            template: t,
        } && t@ == template,
        ConfigFault::UnknownPlaceholder { name } => e matches ConfigError::UnknownPlaceholder {
            name: n,
        } && n@ == name,
    }
}

/// `c` is `f` resolved: its root, its tables, and its pattern compiled.
pub open spec fn built_from(c: Config, f: ConfigFile) -> bool {
    &&& f.vault.root == Some(c.vault.root)
    &&& c.vault.features_dir == f.vault.features_dir
    &&& c.vault.people_dir == f.vault.people_dir
    &&& c.frontmatter == f.frontmatter
    &&& c.template == f.template
    &&& c.sections == f.sections
    &&& c.tickets.pattern@ == f.tickets.branch_pattern@
    &&& c.tickets.id == f.tickets.id
}

/// `r` is what validating `f` gives when its root's absoluteness is
/// `root_absolute`.
pub open spec fn validated(f: ConfigFile, root_absolute: bool, r: Result<Config, ConfigError>) -> bool {
    match validation_fault(f, root_absolute) {
        Some(x) => r matches Err(e) && reports_config(e, x),
        None => r matches Ok(c) && built_from(c, f),
    }
}

/// `path` holds a separator (`/` or `\`) or a `:`: on every platform
/// some such character marks the root or the prefix of an absolute path.
pub open spec fn has_root_mark(path: Seq<char>) -> bool {
    has_char(path, '/') || has_char(path, '\\') || has_char(path, ':')
}

/// `std::path::Path::is_absolute` on `path`. What counts as absolute
/// depends on the platform (on Unix a leading root, on Windows a prefix
/// and a root); the contract says what holds on each: an absolute path
/// holds a separator or a `:`. Which such paths are absolute is left
/// unsaid.
#[verifier::external_body]
fn path_is_absolute(path: &str) -> (r: bool)
    ensures
        r ==> path@.len() > 0 && has_root_mark(path@),
{
    std::path::Path::new(path).is_absolute()
}

/// Whether `name` is on the ignore list.
fn ignored(ignore: &Vec<String>, name: &str) -> (r: bool)
    ensures
        r == in_list(ignore@, name@),
{
    let mut j: usize = 0;
    while j < ignore.len()
        invariant
            j <= ignore@.len(),
            forall|i: int| 0 <= i < j ==> #[trigger] ignore@[i]@ != name@,
        decreases ignore@.len() - j,
    {
        if str_eq(ignore[j].as_str(), name) {
            assert(ignore@[j as int]@ == name@);
            return true;
        }
        j = j + 1;
    }
    false
}

pub open spec fn opt_key(types: Seq<(String, FieldType)>, best: Option<usize>) -> Option<Seq<char>> {
    match best {
        Some(i) => Some(types[i as int].0@),
        None => None,
    }
}

fn type_fault(cfg: &FrontmatterCfg) -> (r: Option<ConfigError>)
    ensures
        match first_type_fault(cfg.types@, cfg.ignore@) {
            Some(x) => r matches Some(e) && reports_config(e, x),
            None => r is None,
        },
{
    let mut best: Option<usize> = None;
    let mut k: usize = 0;
    while k < cfg.types.len()
        invariant
            k <= cfg.types@.len(),
            best matches Some(i) ==> i < k,
            least_refused(cfg.types@, cfg.ignore@, 0, None) == least_refused(
                cfg.types@,
                cfg.ignore@,
                k as int,
                opt_key(cfg.types@, best),
            ),
        decreases cfg.types@.len() - k,
    {
        let name = &cfg.types[k].0;
        assert(name@ == cfg.types@[k as int].0@);
        let refused = managed_field_owner(name.as_str()).is_some() || ignored(&cfg.ignore, name.as_str());
        let better = match best {
            Some(i) => text_less(name.as_str(), cfg.types[i].0.as_str()),
            None => true,
        };
        if refused && better {
            best = Some(k);
        }
        k = k + 1;
    }
    match best {
        None => None,
        Some(i) => {
            let name = &cfg.types[i].0;
            match managed_field_owner(name.as_str()) {
                Some(owner) => Some(ConfigError::ManagedField { field: name.clone(), owner }),
                None => Some(ConfigError::IgnoreTypeCollision { field: name.clone() }),
            }
        },
    }
}

fn any_unnamed(names: &Vec<Option<String>>) -> (r: bool)
    ensures
        r == has_unnamed(texts_view(names@)),
{
    let mut i: usize = 1;
    while i < names.len()
        invariant
            1 <= i,
            forall|j: int| 1 <= j < i && j < names@.len() ==> #[trigger] names@[j] is Some,
        decreases names@.len() - i,
    {
        if names[i].is_none() {
            assert(texts_view(names@)[i as int] is None);
            return true;
        }
        i = i + 1;
    }
    assert forall|j: int| 1 <= j < texts_view(names@).len() implies !(#[trigger] texts_view(names@)[j] is None) by {
        assert(names@[j] is Some);
    }
    false
}

fn names_group(names: &Vec<Option<String>>, n: &String) -> (r: bool)
    ensures
        r == is_group_name(texts_view(names@), n@),
{
    let mut i: usize = 0;
    while i < names.len()
        invariant
            i <= names@.len(),
            forall|j: int| 0 <= j < i ==> #[trigger] texts_view(names@)[j] != Some(n@),
        decreases names@.len() - i,
    {
        match &names[i] {
            Some(g) => {
                if str_eq(g.as_str(), n.as_str()) {
                    assert(texts_view(names@)[i as int] == Some(n@));
                    return true;
                }
            },
            None => {},
        }
        i = i + 1;
    }
    false
}

fn first_unknown_exec(ps: &Vec<String>, names: &Vec<Option<String>>) -> (r: Option<usize>)
    ensures
        match r {
            Some(j) => j < ps@.len() && first_unknown(strings_view(ps@), texts_view(names@), 0) == Some(
                j as int,
            ),
            None => first_unknown(strings_view(ps@), texts_view(names@), 0) is None,
        },
{
    let ghost sv = strings_view(ps@);
    let ghost nv = texts_view(names@);
    let mut k: usize = 0;
    while k < ps.len()
        invariant
            k <= ps@.len(),
            sv == strings_view(ps@),
            nv == texts_view(names@),
            first_unknown(sv, nv, 0) == first_unknown(sv, nv, k as int),
        decreases ps@.len() - k,
    {
        if !names_group(names, &ps[k]) {
            return Some(k);
        }
        k = k + 1;
    }
    None
}

impl ConfigFile {
    /// Validates the file given whether its root is absolute, and builds
    /// the resolved config; the first failing check is the error.
    pub fn validate_with(self, root_absolute: bool) -> (r: Result<Config, ConfigError>)
        ensures
            validated(self, root_absolute, r),
    {
        let ghost f = self;
        let ConfigFile { vault, frontmatter, template, tickets, sections } = self;
        let VaultDirs { root, features_dir, people_dir } = vault;
        let root = match root {
            None => {
                return Err(ConfigError::MissingVaultRoot);
            },
            Some(root) => root,
        };
        if !root_absolute {
            return Err(ConfigError::RelativeRoot(root));
        }
        match type_fault(&frontmatter) {
            Some(e) => {
                return Err(e);
            },
            None => {},
        }
        let TicketCfg { branch_pattern, id } = tickets;
        let pattern = match Pattern::new(branch_pattern.as_str()) {
            Ok(p) => p,
            Err(source) => {
                return Err(ConfigError::Regex { pattern: branch_pattern, source });
            },
        };
        let names = pattern.capture_names();
        if any_unnamed(names) {
            return Err(ConfigError::UnnamedCaptures);
        }
        if names.len() <= 1 {
            return Err(ConfigError::NoNamedCaptures);
        }
        let placeholders = match extract_placeholders(id.as_str()) {
            Ok(ps) => ps,
            Err(()) => {
                return Err(ConfigError::MalformedIdTemplate { template: id });
            },
        };
        match first_unknown_exec(&placeholders, names) {
            Some(j) => {
                return Err(ConfigError::UnknownPlaceholder { name: placeholders[j].clone() });
            },
            None => {},
        }
        Ok(
            Config {
                vault: ResolvedVault { root, features_dir, people_dir },
                frontmatter,
                template,
                tickets: Tickets { pattern, id },
                sections,
            },
        )
    }

    /// Validates the file (semantic checks) and builds the resolved
    /// config. Whether the root is absolute is the platform's call; the
    /// result is what [`ConfigFile::validate_with`] gives for the answer
    /// it gave.
    pub fn validate(self) -> (r: Result<Config, ConfigError>)
        ensures
            exists|root_absolute: bool|
                (root_absolute ==> (self.vault.root matches Some(root) && root@.len() > 0 && has_root_mark(
                    root@,
                ))) && #[trigger] validated(self, root_absolute, r),
            match self.vault.root {
                Some(root) => !has_root_mark(root@) ==> (r matches Err(ConfigError::RelativeRoot(x))
                    && x@ == root@),
                None => true,
            },
    {
        let ghost f = self;
        let root_absolute = match &self.vault.root {
            Some(root) => path_is_absolute(root.as_str()),
            None => false,
        };
        let r = self.validate_with(root_absolute);
        assert(validated(f, root_absolute, r));
        r
    }
}

proof fn lemma_least_refused(types: Seq<(String, FieldType)>, ignore: Seq<String>, k: int, best: Option<Seq<char>>)
    requires
        0 <= k,
    ensures
        least_refused(types, ignore, k, best) is None <==> (best is None && forall|j: int|
            k <= j < types.len() ==> !refused_type_key(ignore, #[trigger] types[j].0@)),
        least_refused(types, ignore, k, best) matches Some(n) ==> (best == Some(n) || exists|j: int|
            k <= j < types.len() && refused_type_key(ignore, #[trigger] types[j].0@) && types[j].0@ == n) && (
        best matches Some(b) ==> n == b || text_lt(n, b)) && forall|j: int|
            k <= j < types.len() && refused_type_key(ignore, #[trigger] types[j].0@) ==> n == types[j].0@
                || text_lt(n, types[j].0@),
    decreases types.len() - k,
{
    if k < types.len() {
        let n = types[k].0@;
        let next = if refused_type_key(ignore, n) && (best matches Some(b) ==> text_lt(n, b)) {
            Some(n)
        } else {
            best
        };
        lemma_least_refused(types, ignore, k + 1, next);
        if let Some(m) = least_refused(types, ignore, k, best) {
            if let Some(b) = best {
                if next == Some(n) && n != b {
                    if m != n {
                        lemma_text_lt_trans(m, n, b);
                    }
                }
            }
            if refused_type_key(ignore, n) {
                if next != Some(n) {
                    let b = best->0;
                    lemma_text_lt_total(n, b);
                    if m != b {
                        lemma_text_lt_trans(m, b, n);
                    }
                }
            }
        }
    }
}

/// Declared types are checked in key order: a configuration's types are
/// refused for the least refused key (a managed or ignored field name), in
/// the order Rust sorts strings, and not at all when no key is refused.
pub proof fn lemma_type_fault_order(types: Seq<(String, FieldType)>, ignore: Seq<String>)
    ensures
        first_type_fault(types, ignore) is None <==> forall|j: int|
            0 <= j < types.len() ==> !refused_type_key(ignore, #[trigger] types[j].0@),
        first_type_fault(types, ignore) matches Some(f) ==> exists|j: int|
            0 <= j < types.len() && refused_type_key(ignore, #[trigger] types[j].0@) && f == type_fault_for(
                types[j].0@,
            ) && forall|i: int|
                0 <= i < types.len() && refused_type_key(ignore, #[trigger] types[i].0@) ==> types[j].0@
                    == types[i].0@ || text_lt(types[j].0@, types[i].0@),
{
    lemma_least_refused(types, ignore, 0, None);
}

proof fn lemma_no_unknown(ps: Seq<Seq<char>>, names: Seq<Option<Seq<char>>>, k: int)
    requires
        0 <= k,
        first_unknown(ps, names, k) is None,
    ensures
        forall|j: int| k <= j < ps.len() ==> is_group_name(names, #[trigger] ps[j]),
    decreases ps.len() - k,
{
    if k < ps.len() {
        lemma_no_unknown(ps, names, k + 1);
    }
}

/// What a configuration that validates satisfies: its root is the file's
/// root, absolute, and so holds a separator or a `:`; no declared type
/// names a managed field or a field on the ignore list; its pattern is
/// the file's branch pattern compiled, naming every group and at least
/// one; every `{Name}` of the id template names one of those groups; the
/// other tables pass through unchanged.
pub proof fn lemma_validated_config(f: ConfigFile, root_absolute: bool, c: Config)
    requires
        validated(f, root_absolute, Ok(c)),
        root_absolute ==> (f.vault.root matches Some(r) && has_root_mark(r@)),
    ensures
        built_from(c, f),
        root_absolute,
        has_root_mark(c.vault.root@),
        forall|j: int|
            0 <= j < c.frontmatter.types@.len() ==> managed_owner(#[trigger] c.frontmatter.types@[j].0@) is None
                && !in_list(c.frontmatter.ignore@, c.frontmatter.types@[j].0@),
        spec_capture_names(c.tickets.pattern@) matches Some(names) && !has_unnamed(names) && names.len() > 1 && (
        spec_extract(c.tickets.id@) matches Some(ps) && forall|j: int|
            0 <= j < ps.len() ==> is_group_name(names, #[trigger] ps[j])),
{
    assert(validation_fault(f, root_absolute) is None);
    lemma_type_fault_order(f.frontmatter.types@, f.frontmatter.ignore@);
    let names = spec_capture_names(f.tickets.branch_pattern@)->0;
    let ps = spec_extract(f.tickets.id@)->0;
    lemma_no_unknown(ps, names, 0);
}

/// Why the configuration could not be loaded.
#[derive(Debug)]
pub enum LoadError {
    /// `OCLI_CONFIG` names a file that does not exist.
    EnvConfigMissing { path: String },
    /// No config file at the default location, and no vault root from
    /// `--vault` or `OCLI_VAULT`.
    NoConfigFile { path: String },
    /// The file exists but could not be read or parsed.
    File(ConfigFileError),
    /// The file does not pass validation.
    Invalid { path: String, error: ConfigError },
}

/// The vault root by precedence: `--vault` over `OCLI_VAULT` over the
/// config file.
pub open spec fn effective_root(
    vault_override: Option<String>,
    vault_env: Option<String>,
    file_root: Option<String>,
) -> Option<String> {
    match vault_override {
        Some(o) => Some(o),
        None => match vault_env {
            Some(e) => Some(e),
            None => file_root,
        },
    }
}

/// `f` with its vault root replaced.
pub open spec fn with_root(f: ConfigFile, root: Option<String>) -> ConfigFile {
    ConfigFile {
        vault: VaultDirs {
            root,
            features_dir: f.vault.features_dir,
            people_dir: f.vault.people_dir,
        },
        frontmatter: f.frontmatter,
        template: f.template,
        tickets: f.tickets,
        sections: f.sections,
    }
}

/// `r` is what loading `f` from `path` gives when the root's absoluteness
/// is `root_absolute`: validation errors carry the path.
pub open spec fn loaded_as(f: ConfigFile, root_absolute: bool, path: Seq<char>, r: Result<Config, LoadError>) -> bool {
    match validation_fault(f, root_absolute) {
        Some(x) => r matches Err(LoadError::Invalid { path: p, error: e }) && p@ == path && reports_config(
            e,
            x,
        ),
        None => r matches Ok(c) && built_from(c, f),
    }
}

/// The tables of `c` are the defaults.
pub open spec fn default_tables(c: Config) -> bool {
    &&& c.vault.features_dir@ == DEFAULT_FEATURES_DIR@
    &&& c.vault.people_dir@ == DEFAULT_PEOPLE_DIR@
    &&& strings_view(c.frontmatter.ignore@) == spec_default_ignore()
    &&& c.frontmatter.types@.len() == 0
    &&& c.template.path@ == DEFAULT_TEMPLATE_PATH@
    &&& c.template.values@.len() == 0
    &&& c.tickets.pattern@ == DEFAULT_BRANCH_PATTERN@
    &&& c.tickets.id@ == DEFAULT_ID_TEMPLATE@
    &&& c.sections.entries@.len() == 0
}

pub open spec fn file_root_of(loaded: Result<ConfigFile, ConfigFileError>) -> Option<String> {
    match loaded {
        Ok(f) => f.vault.root,
        Err(_) => None,
    }
}

impl Config {
    /// Resolves the configuration from the outcome of reading and parsing
    /// the file at `path` (found through `source`) and the vault roots
    /// from `--vault` and `OCLI_VAULT`.
    ///
    /// A missing file is an error when `OCLI_CONFIG` named it (a typo must
    /// not be masked), recovered on defaults when a vault root comes from
    /// elsewhere, and an onboarding error otherwise. The vault root is
    /// `--vault` over `OCLI_VAULT` over the file; then the file is
    /// validated.
    pub fn load_from(
        source: ConfigSource,
        path: &str,
        loaded: Result<ConfigFile, ConfigFileError>,
        vault_override: Option<String>,
        vault_env: Option<String>,
    ) -> (r: Result<Config, LoadError>)
        ensures
            match loaded {
                Err(ConfigFileError::ConfigFileNotFound { path: p, .. }) => match source {
                    ConfigSource::EnvOverride => r matches Err(LoadError::EnvConfigMissing { path: q })
                        && q@ == p@,
                    ConfigSource::Default => if vault_override is None && vault_env is None {
                        r matches Err(LoadError::NoConfigFile { path: q }) && q@ == p@
                    } else {
                        (exists|f0: ConfigFile, root_absolute: bool|
                            default_file(f0) && #[trigger] loaded_as(
                                with_root(f0, effective_root(vault_override, vault_env, None)),
                                root_absolute,
                                path@,
                                r,
                            )) && (r matches Ok(c) ==> default_tables(c))
                    },
                },
                Err(e) => r matches Err(LoadError::File(x)) && x == e,
                Ok(f) => exists|root_absolute: bool|
                    #[trigger] loaded_as(
                        with_root(f, effective_root(vault_override, vault_env, f.vault.root)),
                        root_absolute,
                        path@,
                        r,
                    ),
            },
            r matches Ok(c) ==> Some(c.vault.root) == effective_root(
                vault_override,
                vault_env,
                file_root_of(loaded),
            ),
            match effective_root(vault_override, vault_env, file_root_of(loaded)) {
                Some(root) => (loaded is Ok || (loaded is Err && loaded->Err_0 is ConfigFileNotFound
                    && source is Default)) && !has_root_mark(root@) ==> (r matches Err(
                    LoadError::Invalid { error: ConfigError::RelativeRoot(x), .. },
                ) && x@ == root@),
                None => true,
            },
    {
        let ghost loaded_in = loaded;
        let vault_available = vault_override.is_some() || vault_env.is_some();
        let file = match loaded {
            Ok(file) => file,
            Err(ConfigFileError::ConfigFileNotFound { path: p, error: _ }) => match source {
                ConfigSource::EnvOverride => {
                    return Err(LoadError::EnvConfigMissing { path: p });
                },
                ConfigSource::Default => {
                    if vault_available {
                        ConfigFile::default()
                    } else {
                        return Err(LoadError::NoConfigFile { path: p });
                    }
                },
            },
            Err(e) => {
                return Err(LoadError::File(e));
            },
        };
        let ConfigFile { vault, frontmatter, template, tickets, sections } = file;
        let VaultDirs { root: file_root, features_dir, people_dir } = vault;
        let ghost eff = effective_root(vault_override, vault_env, file_root);
        let root = match vault_override {
            Some(o) => Some(o),
            None => match vault_env {
                Some(e) => Some(e),
                None => file_root,
            },
        };
        let resolved = ConfigFile {
            vault: VaultDirs { root, features_dir, people_dir },
            frontmatter,
            template,
            tickets,
            sections,
        };
        let ghost g = resolved;
        assert(g == with_root(file, eff));
        let validated_result = resolved.validate();
        let ghost abs = choose|b: bool|
            (b ==> (g.vault.root matches Some(x) && x@.len() > 0 && has_root_mark(x@))) && #[trigger] validated(
                g,
                b,
                validated_result,
            );
        let r = match validated_result {
            Ok(c) => Ok(c),
            Err(error) => Err(LoadError::Invalid { path: String::from_str(path), error }),
        };
        assert(loaded_as(g, abs, path@, r));
        r
    }
}

/// Vault-root precedence: `--vault` wins over `OCLI_VAULT`, which wins
/// over the config file; the file's root counts only when neither is
/// given.
pub proof fn lemma_vault_root_precedence(
    vault_override: Option<String>,
    vault_env: Option<String>,
    file_root: Option<String>,
)
    ensures
        vault_override is Some ==> effective_root(vault_override, vault_env, file_root) == vault_override,
        vault_override is None && vault_env is Some ==> effective_root(vault_override, vault_env, file_root)
            == vault_env,
        vault_override is None && vault_env is None ==> effective_root(vault_override, vault_env, file_root)
            == file_root,
{
}

pub open spec fn spec_config_message(e: ConfigError) -> Seq<char> {
    match e {
        ConfigError::ManagedField { field, owner } => "frontmatter field "@ + spec_debug_str(field@)
            + " is managed by ocli; use "@ + owner@ + " (or remove the type from config)"@,
        ConfigError::IgnoreTypeCollision { field } => "frontmatter field "@ + spec_debug_str(field@)
            + " is on the ignore list but also has a configured type; remove one of the two"@,
        ConfigError::Regex { pattern, .. } => "tickets.branch_pattern "@ + spec_debug_str(pattern@)
            + " is not a valid regex"@,
        ConfigError::UnnamedCaptures =>
            "tickets.branch_pattern has unnamed capture groups; every group must be named, e.g. (?<FeatureType>...)"@,
        ConfigError::NoNamedCaptures =>
            "tickets.branch_pattern has no named capture groups; the id template needs at least one, e.g. (?<FeatureType>...)"@,
        ConfigError::MalformedIdTemplate { template } => "tickets.id "@ + spec_debug_str(template@)
            + " has unbalanced or empty braces; placeholders look like {FeatureType}"@,
        ConfigError::UnknownPlaceholder { name } => "tickets.id placeholder "@ + spec_debug_str(name@)
            + " is not a named capture group in tickets.branch_pattern"@,
        ConfigError::RelativeRoot(root) => "vault.root must be an absolute path, got "@
            + spec_debug_str(root@),
        ConfigError::MissingVaultRoot =>
            "no vault root: set [vault] root in the config file, set OCLI_VAULT, or pass --vault"@,
    }
}

impl ConfigError {
    /// The human-readable message for this error.
    pub fn message(&self) -> (r: String)
        ensures
            r@ == spec_config_message(*self),
    {
        let mut out = String::new();
        match self {
            ConfigError::ManagedField { field, owner } => {
                push_str(&mut out, "frontmatter field ");
                push_str(&mut out, debug_str(field.as_str()).as_str());
                push_str(&mut out, " is managed by ocli; use ");
                push_str(&mut out, owner);
                push_str(&mut out, " (or remove the type from config)");
            },
            ConfigError::IgnoreTypeCollision { field } => {
                push_str(&mut out, "frontmatter field ");
                push_str(&mut out, debug_str(field.as_str()).as_str());
                push_str(
                    &mut out,
                    " is on the ignore list but also has a configured type; remove one of the two",
                );
            },
            ConfigError::Regex { pattern, .. } => {
                push_str(&mut out, "tickets.branch_pattern ");
                push_str(&mut out, debug_str(pattern.as_str()).as_str());
                push_str(&mut out, " is not a valid regex");
            },
            ConfigError::UnnamedCaptures => {
                push_str(
                    &mut out,
                    "tickets.branch_pattern has unnamed capture groups; every group must be named, e.g. (?<FeatureType>...)",
                );
            },
            ConfigError::NoNamedCaptures => {
                push_str(
                    &mut out,
                    "tickets.branch_pattern has no named capture groups; the id template needs at least one, e.g. (?<FeatureType>...)",
                );
            },
            ConfigError::MalformedIdTemplate { template } => {
                push_str(&mut out, "tickets.id ");
                push_str(&mut out, debug_str(template.as_str()).as_str());
                push_str(&mut out, " has unbalanced or empty braces; placeholders look like {FeatureType}");
            },
            ConfigError::UnknownPlaceholder { name } => {
                push_str(&mut out, "tickets.id placeholder ");
                push_str(&mut out, debug_str(name.as_str()).as_str());
                push_str(&mut out, " is not a named capture group in tickets.branch_pattern");
            },
            ConfigError::RelativeRoot(root) => {
                push_str(&mut out, "vault.root must be an absolute path, got ");
                push_str(&mut out, debug_str(root.as_str()).as_str());
            },
            ConfigError::MissingVaultRoot => {
                push_str(
                    &mut out,
                    "no vault root: set [vault] root in the config file, set OCLI_VAULT, or pass --vault",
                );
            },
        }
        proof {
            assert(out@ =~= spec_config_message(*self));
        }
        out
    }
}

pub open spec fn spec_file_message(e: ConfigFileError) -> Seq<char> {
    match e {
        ConfigFileError::FieldTypeError(t) => t@ + " is not a valid field type"@,
        ConfigFileError::ConfigFileNotFound { path, error } => "could not find the config file at "@
            + path@ + ": "@ + error@,
        ConfigFileError::Io { path, error } => "could not read the config file at "@ + path@ + ": "@
            + error@,
        ConfigFileError::Parse { path, source } => "invalid config in "@ + path@ + ": "@ + source@,
    }
}

impl ConfigFileError {
    /// The human-readable message for this error, its cause last.
    pub fn message(&self) -> (r: String)
        ensures
            r@ == spec_file_message(*self),
    {
        let mut out = String::new();
        match self {
            ConfigFileError::FieldTypeError(t) => {
                push_str(&mut out, t.as_str());
                push_str(&mut out, " is not a valid field type");
            },
            ConfigFileError::ConfigFileNotFound { path, error } => {
                push_str(&mut out, "could not find the config file at ");
                push_str(&mut out, path.as_str());
                push_str(&mut out, ": ");
                push_str(&mut out, error.as_str());
            },
            ConfigFileError::Io { path, error } => {
                push_str(&mut out, "could not read the config file at ");
                push_str(&mut out, path.as_str());
                push_str(&mut out, ": ");
                push_str(&mut out, error.as_str());
            },
            ConfigFileError::Parse { path, source } => {
                push_str(&mut out, "invalid config in ");
                push_str(&mut out, path.as_str());
                push_str(&mut out, ": ");
                push_str(&mut out, source.as_str());
            },
        }
        proof {
            assert(out@ =~= spec_file_message(*self));
        }
        out
    }
}

pub open spec fn spec_load_message(e: LoadError) -> Seq<char> {
    match e {
        LoadError::EnvConfigMissing { path } => "OCLI_CONFIG points to "@ + path@
            + ", which does not exist"@,
        LoadError::NoConfigFile { path } => "no config file at "@ + path@ + "\n\nCreate "@ + path@
            + " containing:\n\n[vault]\nroot = \"/path/to/your/vault\"\n\nor pass a vault root via OCLI_VAULT or --vault"@,
        LoadError::File(f) => spec_file_message(f),
        LoadError::Invalid { path, error } => "invalid config in "@ + path@ + ": "@
            + spec_config_message(error),
    }
}

impl LoadError {
    /// The human-readable message for this error, its cause last.
    pub fn message(&self) -> (r: String)
        ensures
            r@ == spec_load_message(*self),
    {
        let mut out = String::new();
        match self {
            LoadError::EnvConfigMissing { path } => {
                push_str(&mut out, "OCLI_CONFIG points to ");
                push_str(&mut out, path.as_str());
                push_str(&mut out, ", which does not exist");
            },
            LoadError::NoConfigFile { path } => {
                push_str(&mut out, "no config file at ");
                push_str(&mut out, path.as_str());
                push_str(&mut out, "\n\nCreate ");
                push_str(&mut out, path.as_str());
                push_str(
                    &mut out,
                    " containing:\n\n[vault]\nroot = \"/path/to/your/vault\"\n\nor pass a vault root via OCLI_VAULT or --vault",
                );
            },
            LoadError::File(f) => {
                let m = f.message();
                push_str(&mut out, m.as_str());
            },
            LoadError::Invalid { path, error } => {
                push_str(&mut out, "invalid config in ");
                push_str(&mut out, path.as_str());
                push_str(&mut out, ": ");
                let m = error.message();
                push_str(&mut out, m.as_str());
            },
        }
        proof {
            assert(out@ =~= spec_load_message(*self));
        }
        out
    }
}

} // verus!
