//! The benchmark config: variants, the templates they draw on, and the rules that a
//! config has to meet.

pub use crate::dimensions::{
    Fault, PositiveSpec, QosSpec, SpecError, ThreadingMode, ThreadingSpec, DEFAULT_RECV_BUFFER_KB,
};
use crate::dimensions::{
    flaw_full_text, modes_named, modes_reading, optional_view, parse_positive_spec, parse_qos_spec,
    parse_recv_buffer, parse_threading_spec, plain, positive_reading, qos_reading,
    recv_buffer_reading, Flaw, PositiveView, QosView,
};
use crate::names::{first_index, has_name, position_of, texts, to_set_push, NameSet};
use crate::toml_value::{
    copy_table, merge_table_keys, optional_table_view, table_view, ItemView, Table, TableView,
    ValueView,
};
use vstd::prelude::*;

verus! {

/// The pause between two spawns of one variant where none is set, in milliseconds.
pub const DEFAULT_INTER_QOS_GRACE_MS: u64 = 250;

// ---------------------------------------------------------------------
// Types
// ---------------------------------------------------------------------

/// Settings that variants may draw on by name. A template is not spawned.
#[derive(Debug, PartialEq, Eq)]
pub struct VariantTemplate {
    pub name: String,
    pub binary: Option<String>,
    pub timeout_secs: Option<u64>,
    pub common: Option<Table>,
    pub specific: Option<Table>,
}

/// A variant of the benchmark.
#[derive(Debug, PartialEq, Eq)]
pub struct VariantConfig {
    pub name: String,
    /// The template that the variant draws on.
    pub template: Option<String>,
    pub binary: String,
    pub timeout_secs: Option<u64>,
    /// Arguments that every variant knows.
    pub common: Table,
    /// Arguments that only this variant knows.
    pub specific: Option<Table>,
    /// The threading modes that the variant supports, where it says so.
    pub supported_modes: Option<Vec<String>>,
}

/// A benchmark.
#[derive(Debug, PartialEq, Eq)]
pub struct BenchConfig {
    pub run: String,
    pub runners: Vec<String>,
    pub default_timeout_secs: u64,
    pub inter_qos_grace_ms: Option<u64>,
    /// The log folder that the config sets for the runner itself.
    pub log_dir: Option<String>,
    pub variant_templates: Vec<VariantTemplate>,
    pub variant: Vec<VariantConfig>,
}

/// What an optional text is.
pub open spec fn optional_text(s: Option<String>) -> Option<Seq<char>> {
    match s {
        Some(s) => Some(s@),
        None => None,
    }
}

/// What a template is.
pub struct TemplateView {
    pub name: Seq<char>,
    pub binary: Option<Seq<char>>,
    pub timeout_secs: Option<u64>,
    pub common: Option<TableView>,
    pub specific: Option<TableView>,
}

/// What a variant is.
pub struct VariantView {
    pub name: Seq<char>,
    pub template: Option<Seq<char>>,
    pub binary: Seq<char>,
    pub timeout_secs: Option<u64>,
    pub common: TableView,
    pub specific: Option<TableView>,
    pub supported_modes: Option<Seq<Seq<char>>>,
}

impl VariantTemplate {
    pub open spec fn view(&self) -> TemplateView {
        TemplateView {
            name: self.name@,
            binary: optional_text(self.binary),
            timeout_secs: self.timeout_secs,
            common: optional_table_view(self.common),
            specific: optional_table_view(self.specific),
        }
    }
}

/// The templates.
pub open spec fn template_views(v: Seq<VariantTemplate>) -> Seq<TemplateView> {
    Seq::new(v.len(), |i: int| v[i]@)
}

/// The variants.
pub open spec fn variant_views(v: Seq<VariantConfig>) -> Seq<VariantView> {
    Seq::new(v.len(), |i: int| v[i]@)
}

/// The value of `key`, if it has one.
pub open spec fn lookup(t: TableView, key: Seq<char>) -> Option<ValueView> {
    if t.contains_key(key) {
        Some(t[key])
    } else {
        None
    }
}

/// What a table says of a positive setting that has to be there.
pub open spec fn required_positive(t: TableView, key: Seq<char>) -> Result<PositiveView, Flaw> {
    match lookup(t, key) {
        None => Err(plain(Fault::Missing)),
        Some(v) => positive_reading(v),
    }
}

/// The words as elements of an array.
pub open spec fn as_items(words: Seq<Seq<char>>) -> Seq<ItemView> {
    Seq::new(words.len(), |i: int| ItemView::Text(words[i]))
}

fn read_positive(common: &Table, key: &str) -> (r: Result<PositiveSpec, SpecError>)
    ensures
        match r {
            Ok(s) => required_positive(table_view(*common), key@) == Ok::<PositiveView, Flaw>(s@),
            Err(e) => required_positive(table_view(*common), key@) == Err::<PositiveView, Flaw>(e.flaw())
                && e.field@ == key@,
        },
{
    match common.get(key) {
        None => Err(SpecError { field: key.to_owned(), fault: Fault::Missing, shown: String::new() }),
        Some(v) => parse_positive_spec(key, v),
    }
}

impl VariantConfig {
    pub open spec fn view(&self) -> VariantView {
        VariantView {
            name: self.name@,
            template: optional_text(self.template),
            binary: self.binary@,
            timeout_secs: self.timeout_secs,
            common: table_view(self.common),
            specific: optional_table_view(self.specific),
            supported_modes: match self.supported_modes {
                Some(v) => Some(texts(v@)),
                None => None,
            },
        }
    }

    /// The variant's own timeout, or `default`.
    pub fn effective_timeout(&self, default: u64) -> (r: u64)
        ensures
            r == (match self.timeout_secs {
                Some(t) => t,
                None => default,
            }),
    {
        match self.timeout_secs {
            Some(t) => t,
            None => default,
        }
    }

    /// The quality of service levels.
    pub fn qos_spec(&self) -> (r: Result<QosSpec, SpecError>)
        ensures
            match r {
                Ok(s) => qos_reading(lookup(self@.common, "qos"@)) == Ok::<QosView, Flaw>(s@),
                Err(e) => qos_reading(lookup(self@.common, "qos"@)) == Err::<QosView, Flaw>(e.flaw())
                    && e.field@ == "qos"@,
            },
    {
        let v = self.common.get("qos");
        assert(optional_view(v) == lookup(self@.common, "qos"@));
        parse_qos_spec(v)
    }

    /// The tick rates.
    pub fn tick_rate_spec(&self) -> (r: Result<PositiveSpec, SpecError>)
        ensures
            match r {
                Ok(s) => required_positive(self@.common, "tick_rate_hz"@) == Ok::<PositiveView, Flaw>(s@),
                Err(e) => required_positive(self@.common, "tick_rate_hz"@) == Err::<PositiveView, Flaw>(
                    e.flaw(),
                ) && e.field@ == "tick_rate_hz"@,
            },
    {
        read_positive(&self.common, "tick_rate_hz")
    }

    /// The numbers of values per tick.
    pub fn values_per_tick_spec(&self) -> (r: Result<PositiveSpec, SpecError>)
        ensures
            match r {
                Ok(s) => required_positive(self@.common, "values_per_tick"@) == Ok::<PositiveView, Flaw>(
                    s@,
                ),
                Err(e) => required_positive(self@.common, "values_per_tick"@)
                    == Err::<PositiveView, Flaw>(e.flaw()) && e.field@ == "values_per_tick"@,
            },
    {
        read_positive(&self.common, "values_per_tick")
    }

    /// The threading modes.
    pub fn threading_modes_spec(&self) -> (r: Result<ThreadingSpec, SpecError>)
        ensures
            match r {
                Ok(s) => modes_reading(lookup(self@.common, "threading_modes"@)) == Ok::<
                    Seq<ThreadingMode>,
                    Flaw,
                >(s.requested@),
                Err(e) => modes_reading(lookup(self@.common, "threading_modes"@)) == Err::<
                    Seq<ThreadingMode>,
                    Flaw,
                >(e.flaw()) && e.field@ == "threading_modes"@,
            },
    {
        let v = self.common.get("threading_modes");
        assert(optional_view(v) == lookup(self@.common, "threading_modes"@));
        parse_threading_spec("threading_modes", v)
    }

    /// The size of the receive buffer, in kilobytes.
    pub fn recv_buffer_kb(&self) -> (r: Result<u32, SpecError>)
        ensures
            match r {
                Ok(n) => recv_buffer_reading(lookup(self@.common, "recv_buffer_kb"@)) == Ok::<u32, Flaw>(
                    n,
                ),
                Err(e) => recv_buffer_reading(lookup(self@.common, "recv_buffer_kb"@)) == Err::<u32, Flaw>(
                    e.flaw(),
                ) && e.field@ == "recv_buffer_kb"@,
            },
    {
        let v = self.common.get("recv_buffer_kb");
        assert(optional_view(v) == lookup(self@.common, "recv_buffer_kb"@));
        parse_recv_buffer(v)
    }

    /// The threading modes that the variant says it supports; none where it says
    /// nothing.
    pub fn supported_modes_resolved(&self) -> (r: Result<Option<Vec<ThreadingMode>>, SpecError>)
        ensures
            match (r, self@.supported_modes) {
                (Ok(None), None) => true,
                (Ok(Some(v)), Some(words)) => modes_named(as_items(words)) == Ok::<Seq<ThreadingMode>, Flaw>(
                    v@,
                ),
                (Err(e), Some(words)) => modes_named(as_items(words)) == Err::<Seq<ThreadingMode>, Flaw>(
                    e.flaw(),
                ) && e.field@ == "supported_modes"@,
                _ => false,
            },
    {
        match &self.supported_modes {
            None => Ok(None),
            Some(words) => {
                let mut out: Vec<ThreadingMode> = Vec::new();
                let ghost views = as_items(texts(words@));
                for i in 0..words.len()
                    invariant
                        views == as_items(texts(words@)),
                        self@.supported_modes == Some(texts(words@)),
                        modes_named(views.take(i as int)) == Ok::<Seq<ThreadingMode>, Flaw>(out@),
                {
                    proof {
                        assert(views.take(i + 1).drop_last() =~= views.take(i as int));
                        assert(views.take(i + 1).last() == ItemView::Text(words@[i as int]@));
                    }
                    match ThreadingMode::from_word(words[i].as_str()) {
                        Some(m) => {
                            out.push(m);
                        },
                        None => {
                            proof {
                                crate::dimensions::modes_flaw_stays(views, i + 1);
                            }
                            return Err(
                                SpecError {
                                    field: "supported_modes".to_owned(),
                                    fault: Fault::UnknownMode,
                                    shown: words[i].clone(),
                                },
                            );
                        },
                    }
                }
                assert(views.take(views.len() as int) =~= views);
                Ok(Some(out))
            },
        }
    }
}

// ---------------------------------------------------------------------
// Errors
// ---------------------------------------------------------------------

/// Why a config cannot be used.
#[derive(Debug, Clone, PartialEq, Eq)]
pub enum ConfigError {
    EmptyTemplateName,
    DuplicateTemplate { name: String },
    UnknownTemplate { variant: String, template: String },
    EmptyRun,
    NoRunners,
    ZeroDefaultTimeout,
    DuplicateVariant { name: String },
    EmptyBinary { variant: String },
    ZeroTimeout { variant: String },
    /// A setting of the variant cannot be used.
    InvalidSetting { variant: String, cause: SpecError },
}

/// What a config error is.
pub enum ConfigFault {
    EmptyTemplateName,
    DuplicateTemplate { name: Seq<char> },
    UnknownTemplate { variant: Seq<char>, template: Seq<char> },
    EmptyRun,
    NoRunners,
    ZeroDefaultTimeout,
    DuplicateVariant { name: Seq<char> },
    EmptyBinary { variant: Seq<char> },
    ZeroTimeout { variant: Seq<char> },
    InvalidSetting { variant: Seq<char>, field: Seq<char>, flaw: Flaw },
}

impl ConfigFault {
    /// The text of the error.
    pub open spec fn text(self) -> Seq<char> {
        match self {
            ConfigFault::EmptyTemplateName => "config: variant_template has an empty 'name'"@,
            ConfigFault::DuplicateTemplate { name } => "config: duplicate variant_template name '"@ + name
                + "'"@,
            ConfigFault::UnknownTemplate { variant, template } => "config: variant '"@ + variant
                + "' references unknown template '"@ + template + "'"@,
            ConfigFault::EmptyRun => "config: 'run' must be non-empty"@,
            ConfigFault::NoRunners => "config: 'runners' must contain at least one name"@,
            ConfigFault::ZeroDefaultTimeout => "config: 'default_timeout_secs' must be positive"@,
            ConfigFault::DuplicateVariant { name } => "config: duplicate variant name '"@ + name + "'"@,
            ConfigFault::EmptyBinary { variant } => "config: variant '"@ + variant
                + "' has an empty 'binary' path"@,
            ConfigFault::ZeroTimeout { variant } => "config: variant '"@ + variant
                + "' has timeout_secs of 0 (must be positive)"@,
            ConfigFault::InvalidSetting { variant, field, flaw } => "config: variant '"@ + variant
                + "' has invalid "@ + field,
        }
    }

    /// The text of the error, with its cause where it has one.
    pub open spec fn full_text(self) -> Seq<char> {
        match self {
            ConfigFault::InvalidSetting { variant, field, flaw } => self.text() + ": "@
                + flaw_full_text(field, flaw),
            _ => self.text(),
        }
    }
}

impl ConfigError {
    pub open spec fn view(&self) -> ConfigFault {
        match self {
            ConfigError::EmptyTemplateName => ConfigFault::EmptyTemplateName,
            ConfigError::DuplicateTemplate { name } => ConfigFault::DuplicateTemplate { name: name@ },
            ConfigError::UnknownTemplate { variant, template } => ConfigFault::UnknownTemplate {
                variant: variant@,
                template: template@,
            },
            ConfigError::EmptyRun => ConfigFault::EmptyRun,
            ConfigError::NoRunners => ConfigFault::NoRunners,
            ConfigError::ZeroDefaultTimeout => ConfigFault::ZeroDefaultTimeout,
            ConfigError::DuplicateVariant { name } => ConfigFault::DuplicateVariant { name: name@ },
            ConfigError::EmptyBinary { variant } => ConfigFault::EmptyBinary { variant: variant@ },
            ConfigError::ZeroTimeout { variant } => ConfigFault::ZeroTimeout { variant: variant@ },
            ConfigError::InvalidSetting { variant, cause } => ConfigFault::InvalidSetting {
                variant: variant@,
                field: cause.field@,
                flaw: cause.flaw(),
            },
        }
    }

    /// The text of the error.
    pub fn message(&self) -> (r: String)
        ensures
            r@ == self@.text(),
    {
        match self {
            ConfigError::EmptyTemplateName => "config: variant_template has an empty 'name'".to_owned(),
            ConfigError::DuplicateTemplate { name } => {
                let mut s = "config: duplicate variant_template name '".to_owned();
                s.append(name.as_str());
                s.append("'");
                s
            },
            ConfigError::UnknownTemplate { variant, template } => {
                let mut s = "config: variant '".to_owned();
                s.append(variant.as_str());
                s.append("' references unknown template '");
                s.append(template.as_str());
                s.append("'");
                s
            },
            ConfigError::EmptyRun => "config: 'run' must be non-empty".to_owned(),
            ConfigError::NoRunners => "config: 'runners' must contain at least one name".to_owned(),
            ConfigError::ZeroDefaultTimeout => "config: 'default_timeout_secs' must be positive".to_owned(),
            ConfigError::DuplicateVariant { name } => {
                let mut s = "config: duplicate variant name '".to_owned();
                s.append(name.as_str());
                s.append("'");
                s
            },
            ConfigError::EmptyBinary { variant } => {
                let mut s = "config: variant '".to_owned();
                s.append(variant.as_str());
                s.append("' has an empty 'binary' path");
                s
            },
            ConfigError::ZeroTimeout { variant } => {
                let mut s = "config: variant '".to_owned();
                s.append(variant.as_str());
                s.append("' has timeout_secs of 0 (must be positive)");
                s
            },
            ConfigError::InvalidSetting { variant, cause } => {
                let mut s = "config: variant '".to_owned();
                s.append(variant.as_str());
                s.append("' has invalid ");
                s.append(cause.field.as_str());
                s
            },
        }
    }

    /// The text of the error, with its cause where it has one.
    pub fn full_message(&self) -> (r: String)
        ensures
            r@ == self@.full_text(),
    {
        let mut s = self.message();
        match self {
            ConfigError::InvalidSetting { variant, cause } => {
                s.append(": ");
                s.append(cause.full_message().as_str());
            },
            _ => {},
        }
        s
    }
}

// ---------------------------------------------------------------------
// Templates
// ---------------------------------------------------------------------

/// The names of the templates.
pub open spec fn template_names(ts: Seq<TemplateView>) -> Seq<Seq<char>> {
    Seq::new(ts.len(), |i: int| ts[i].name)
}

/// What is wrong with the names of the templates, if anything: the first that is
/// empty or has occurred before.
pub open spec fn templates_fault(names: Seq<Seq<char>>) -> Option<ConfigFault>
    decreases names.len(),
{
    if names.len() == 0 {
        None
    } else {
        match templates_fault(names.drop_last()) {
            Some(e) => Some(e),
            None => if names.last().len() == 0 {
                Some(ConfigFault::EmptyTemplateName)
            } else if names.drop_last().contains(names.last()) {
                Some(ConfigFault::DuplicateTemplate { name: names.last() })
            } else {
                None
            },
        }
    }
}

/// The table with the entries of the template added where it has none of that name.
pub open spec fn with_defaults(t: TableView, defaults: Option<TableView>) -> TableView {
    match defaults {
        Some(d) => d.union_prefer_right(t),
        None => t,
    }
}

/// The variant with what it leaves open taken from the template.
pub open spec fn resolved(v: VariantView, t: TemplateView) -> VariantView {
    VariantView {
        name: v.name,
        template: v.template,
        binary: if v.binary.len() == 0 {
            match t.binary {
                Some(b) => b,
                None => v.binary,
            }
        } else {
            v.binary
        },
        timeout_secs: match v.timeout_secs {
            Some(n) => Some(n),
            None => t.timeout_secs,
        },
        common: with_defaults(v.common, t.common),
        specific: match t.specific {
            None => v.specific,
            Some(d) => Some(
                with_defaults(
                    match v.specific {
                        Some(s) => s,
                        None => Map::empty(),
                    },
                    Some(d),
                ),
            ),
        },
        supported_modes: v.supported_modes,
    }
}

/// The variant with its template applied; none where the template is not known.
pub open spec fn resolved_by_name(v: VariantView, ts: Seq<TemplateView>) -> Option<VariantView> {
    match v.template {
        None => Some(v),
        Some(name) => match first_index(template_names(ts), name) {
            Some(i) => Some(resolved(v, ts[i])),
            None => None,
        },
    }
}

/// The variants with their templates applied, up to the first whose template is not
/// known; what follows it is unchanged.
pub open spec fn resolved_variants(vs: Seq<VariantView>, ts: Seq<TemplateView>, n: int) -> Seq<VariantView> {
    Seq::new(
        vs.len(),
        |i: int|
            if i < n {
                resolved_by_name(vs[i], ts)->0
            } else {
                vs[i]
            },
    )
}

/// All the first `n` variants name a known template, or none.
pub open spec fn all_known(vs: Seq<VariantView>, ts: Seq<TemplateView>, n: int) -> bool {
    forall|i: int| 0 <= i < n ==> resolved_by_name(#[trigger] vs[i], ts) is Some
}

fn resolve_one(v: &mut VariantConfig, t: &VariantTemplate)
    ensures
        final(v)@ == resolved(old(v)@, t@),
{
    if v.binary.as_str().is_empty() {
        match &t.binary {
            Some(b) => {
                v.binary = b.clone();
            },
            None => {},
        }
    }
    if v.timeout_secs.is_none() {
        v.timeout_secs = t.timeout_secs;
    }
    match &t.common {
        Some(c) => {
            merge_table_keys(&mut v.common, c);
        },
        None => {},
    }
    match &t.specific {
        Some(c) => {
            let mut target = match &v.specific {
                Some(s) => copy_table(s),
                None => Table::new(),
            };
            proof {
                if v.specific is None {
                    assert(table_view(target) =~= Map::empty());
                }
            }
            merge_table_keys(&mut target, c);
            v.specific = Some(target);
        },
        None => {},
    }
}

impl BenchConfig {
    /// Fills in what the variants leave open from the templates they name. Running it
    /// again changes nothing more.
    pub fn resolve_templates(&mut self) -> (r: Result<(), ConfigError>)
        ensures
            ({
                let ts = template_views(old(self).variant_templates@);
                let vs = variant_views(old(self).variant@);
                let now = variant_views(final(self).variant@);
                match templates_fault(template_names(ts)) {
                    Some(fault) => r is Err && r->Err_0@ == fault && now == vs,
                    None => match r {
                        Ok(()) => all_known(vs, ts, vs.len() as int) && now == resolved_variants(
                            vs,
                            ts,
                            vs.len() as int,
                        ),
                        Err(e) => exists|n: int|
                            {
                                &&& 0 <= n < vs.len()
                                &&& all_known(vs, ts, n)
                                &&& resolved_by_name(#[trigger] vs[n], ts) is None
                                &&& e@ == (ConfigFault::UnknownTemplate {
                                    variant: vs[n].name,
                                    template: vs[n].template->0,
                                })
                                &&& now == resolved_variants(vs, ts, n)
                            },
                    },
                }
            }),
            final(self).run@ == old(self).run@,
            texts(final(self).runners@) == texts(old(self).runners@),
            final(self).default_timeout_secs == old(self).default_timeout_secs,
            final(self).inter_qos_grace_ms == old(self).inter_qos_grace_ms,
            optional_text(final(self).log_dir) == optional_text(old(self).log_dir),
            template_views(final(self).variant_templates@) == template_views(
                old(self).variant_templates@,
            ),
    {
        let ghost ts = template_views(self.variant_templates@);
        let ghost vs = variant_views(self.variant@);
        let mut names: Vec<String> = Vec::new();
        let count: usize = self.variant_templates.len();
        assert(texts(names@) =~= template_names(ts).take(0));
        for i in 0..count
            invariant
                *self == *old(self),
                count == self.variant_templates@.len(),
                ts == template_views(self.variant_templates@),
                vs == variant_views(self.variant@),
                texts(names@) == template_names(ts).take(i as int),
                templates_fault(template_names(ts).take(i as int)) is None,
        {
            let ghost all = template_names(ts);
            let ghost next = all.take(i + 1);
            proof {
                assert(next.drop_last() =~= all.take(i as int));
                assert(next.last() == self.variant_templates@[i as int].name@);
            }
            let name = self.variant_templates[i].name.clone();
            if name.as_str().is_empty() {
                proof {
                    templates_fault_stays(all, i + 1);
                }
                return Err(ConfigError::EmptyTemplateName);
            }
            if has_name(names.as_slice(), name.as_str()) {
                proof {
                    assert(all.take(i as int).to_set().contains(name@));
                    templates_fault_stays(all, i + 1);
                }
                return Err(ConfigError::DuplicateTemplate { name });
            }
            proof {
                assert(!all.take(i as int).contains(name@)) by {
                    if all.take(i as int).contains(name@) {
                        assert(texts(names@).to_set().contains(name@));
                    }
                }
            }
            let ghost before = names@;
            names.push(name);
            assert(texts(names@) =~= texts(before).push(next.last()));
            assert(texts(names@) =~= next);
        }
        assert(template_names(ts).take(count as int) =~= template_names(ts));
        let total: usize = self.variant.len();
        assert(variant_views(self.variant@) =~= resolved_variants(vs, ts, 0));
        for i in 0..total
            invariant
                total == self.variant@.len(),
                total == vs.len(),
                ts == template_views(self.variant_templates@),
                vs == variant_views(old(self).variant@),
                self.variant_templates == old(self).variant_templates,
                self.run == old(self).run,
                self.runners == old(self).runners,
                self.default_timeout_secs == old(self).default_timeout_secs,
                self.inter_qos_grace_ms == old(self).inter_qos_grace_ms,
                self.log_dir == old(self).log_dir,
                texts(names@) == template_names(ts),
                templates_fault(template_names(ts)) is None,
                all_known(vs, ts, i as int),
                variant_views(self.variant@) == resolved_variants(vs, ts, i as int),
        {
            let ghost before = self.variant@;
            proof {
                assert(variant_views(before)[i as int] == vs[i as int]);
                assert(before[i as int]@ == vs[i as int]);
            }
            let wanted: Option<String> = match &self.variant[i].template {
                Some(t) => Some(t.clone()),
                None => None,
            };
            match wanted {
                None => {
                    proof {
                        assert(resolved_by_name(vs[i as int], ts) == Some(vs[i as int]));
                        assert(variant_views(self.variant@) =~= resolved_variants(vs, ts, i + 1));
                    }
                },
                Some(template) => {
                    match position_of(names.as_slice(), template.as_str()) {
                        None => {
                            proof {
                                assert(resolved_by_name(vs[i as int], ts) is None);
                            }
                            return Err(
                                ConfigError::UnknownTemplate {
                                    variant: self.variant[i].name.clone(),
                                    template,
                                },
                            );
                        },
                        Some(k) => {
                            assert(texts(names@).len() == ts.len());
                            resolve_one(&mut self.variant[i], &self.variant_templates[k]);
                            proof {
                                let now = variant_views(self.variant@);
                                assert(ts[k as int] == self.variant_templates@[k as int]@);
                                assert(resolved_by_name(vs[i as int], ts) == Some(
                                    resolved(vs[i as int], ts[k as int]),
                                ));
                                assert forall|j: int| 0 <= j < now.len() implies now[j]
                                    == resolved_variants(vs, ts, i + 1)[j] by {
                                    if j != i {
                                        assert(self.variant@[j] == before[j]);
                                        assert(variant_views(before)[j] == resolved_variants(
                                            vs,
                                            ts,
                                            i as int,
                                        )[j]);
                                    }
                                }
                                assert(now =~= resolved_variants(vs, ts, i + 1));
                            }
                        },
                    }
                },
            }
        }
        Ok(())
    }
}

proof fn templates_fault_stays(names: Seq<Seq<char>>, n: int)
    requires
        0 <= n <= names.len(),
        templates_fault(names.take(n)) is Some,
    ensures
        templates_fault(names) == templates_fault(names.take(n)),
    decreases names.len(),
{
    if n < names.len() {
        assert(names.drop_last().take(n) =~= names.take(n));
        templates_fault_stays(names.drop_last(), n);
    } else {
        assert(names.take(n) =~= names);
    }
}

/// Applying a template a second time changes nothing.
pub proof fn resolving_twice_changes_nothing(v: VariantView, t: TemplateView)
    ensures
        resolved(resolved(v, t), t) == resolved(v, t),
{
    let once = resolved(v, t);
    let twice = resolved(once, t);
    assert(twice.common =~= once.common);
    match t.specific {
        Some(d) => {
            assert(twice.specific->0 =~= once.specific->0);
        },
        None => {},
    }
}

/// Applying the templates of a whole config a second time changes nothing.
pub proof fn resolving_a_config_twice_changes_nothing(vs: Seq<VariantView>, ts: Seq<TemplateView>)
    requires
        all_known(vs, ts, vs.len() as int),
    ensures
        ({
            let once = resolved_variants(vs, ts, vs.len() as int);
            &&& all_known(once, ts, once.len() as int)
            &&& resolved_variants(once, ts, once.len() as int) == once
        }),
{
    let n = vs.len() as int;
    let once = resolved_variants(vs, ts, n);
    assert forall|i: int| 0 <= i < n implies resolved_by_name(#[trigger] once[i], ts) == Some(once[i]) by {
        assert(resolved_by_name(vs[i], ts) is Some);
        match vs[i].template {
            None => {},
            Some(name) => {
                let k = first_index(template_names(ts), name)->0;
                resolving_twice_changes_nothing(vs[i], ts[k]);
            },
        }
    }
    assert(resolved_variants(once, ts, n) =~= once);
}

/// What a variant sets itself wins over its template, and what it leaves open it has
/// from there.
pub proof fn own_settings_win(v: VariantView, t: TemplateView, key: Seq<char>)
    ensures
        v.common.contains_key(key) ==> lookup(resolved(v, t).common, key) == lookup(v.common, key),
        !v.common.contains_key(key) && t.common is Some ==> lookup(resolved(v, t).common, key) == lookup(
            t.common->0,
            key,
        ),
        v.specific is Some && v.specific->0.contains_key(key) ==> resolved(v, t).specific is Some
            && lookup(resolved(v, t).specific->0, key) == lookup(v.specific->0, key),
        v.binary.len() > 0 ==> resolved(v, t).binary == v.binary,
        v.timeout_secs is Some ==> resolved(v, t).timeout_secs == v.timeout_secs,
        resolved(v, t).name == v.name,
{
}

// ---------------------------------------------------------------------
// Validation
// ---------------------------------------------------------------------

/// The names of the variants.
pub open spec fn variant_names(vs: Seq<VariantView>) -> Seq<Seq<char>> {
    Seq::new(vs.len(), |i: int| vs[i].name)
}

/// The first variant whose name has occurred before, that has no binary, or that has
/// a timeout of zero.
pub open spec fn basic_fault(vs: Seq<VariantView>) -> Option<ConfigFault>
    decreases vs.len(),
{
    if vs.len() == 0 {
        None
    } else {
        match basic_fault(vs.drop_last()) {
            Some(e) => Some(e),
            None => {
                let v = vs.last();
                if variant_names(vs.drop_last()).contains(v.name) {
                    Some(ConfigFault::DuplicateVariant { name: v.name })
                } else if v.binary.len() == 0 {
                    Some(ConfigFault::EmptyBinary { variant: v.name })
                } else if v.timeout_secs == Some(0u64) {
                    Some(ConfigFault::ZeroTimeout { variant: v.name })
                } else {
                    None
                }
            },
        }
    }
}

/// What is wrong with the settings of one variant, if anything.
pub open spec fn setting_fault(v: VariantView) -> Option<ConfigFault> {
    match qos_reading(lookup(v.common, "qos"@)) {
        Err(flaw) => Some(
            ConfigFault::InvalidSetting { variant: v.name, field: "qos"@, flaw },
        ),
        Ok(_) => match required_positive(v.common, "tick_rate_hz"@) {
            Err(flaw) => Some(
                ConfigFault::InvalidSetting { variant: v.name, field: "tick_rate_hz"@, flaw },
            ),
            Ok(_) => match required_positive(v.common, "values_per_tick"@) {
                Err(flaw) => Some(
                    ConfigFault::InvalidSetting { variant: v.name, field: "values_per_tick"@, flaw },
                ),
                Ok(_) => None,
            },
        },
    }
}

/// The first variant with a setting that cannot be used.
pub open spec fn settings_fault(vs: Seq<VariantView>) -> Option<ConfigFault>
    decreases vs.len(),
{
    if vs.len() == 0 {
        None
    } else {
        match settings_fault(vs.drop_last()) {
            Some(e) => Some(e),
            None => setting_fault(vs.last()),
        }
    }
}

/// What is wrong with a config, if anything.
pub open spec fn config_fault(
    run: Seq<char>,
    runners: Seq<Seq<char>>,
    default_timeout_secs: u64,
    vs: Seq<VariantView>,
) -> Option<ConfigFault> {
    if run.len() == 0 {
        Some(ConfigFault::EmptyRun)
    } else if runners.len() == 0 {
        Some(ConfigFault::NoRunners)
    } else if default_timeout_secs == 0 {
        Some(ConfigFault::ZeroDefaultTimeout)
    } else {
        match basic_fault(vs) {
            Some(e) => Some(e),
            None => settings_fault(vs),
        }
    }
}

proof fn basic_fault_stays(vs: Seq<VariantView>, n: int)
    requires
        0 <= n <= vs.len(),
        basic_fault(vs.take(n)) is Some,
    ensures
        basic_fault(vs) == basic_fault(vs.take(n)),
    decreases vs.len(),
{
    if n < vs.len() {
        assert(vs.drop_last().take(n) =~= vs.take(n));
        basic_fault_stays(vs.drop_last(), n);
    } else {
        assert(vs.take(n) =~= vs);
    }
}

proof fn settings_fault_stays(vs: Seq<VariantView>, n: int)
    requires
        0 <= n <= vs.len(),
        settings_fault(vs.take(n)) is Some,
    ensures
        settings_fault(vs) == settings_fault(vs.take(n)),
    decreases vs.len(),
{
    if n < vs.len() {
        assert(vs.drop_last().take(n) =~= vs.take(n));
        settings_fault_stays(vs.drop_last(), n);
    } else {
        assert(vs.take(n) =~= vs);
    }
}

fn check_settings(v: &VariantConfig) -> (r: Result<(), ConfigError>)
    ensures
        match r {
            Ok(()) => setting_fault(v@) is None,
            Err(e) => setting_fault(v@) == Some(e@),
        },
{
    match v.qos_spec() {
        Err(cause) => return Err(ConfigError::InvalidSetting { variant: v.name.clone(), cause }),
        Ok(_) => {},
    }
    match v.tick_rate_spec() {
        Err(cause) => return Err(ConfigError::InvalidSetting { variant: v.name.clone(), cause }),
        Ok(_) => {},
    }
    match v.values_per_tick_spec() {
        Err(cause) => return Err(ConfigError::InvalidSetting { variant: v.name.clone(), cause }),
        Ok(_) => {},
    }
    Ok(())
}

impl BenchConfig {
    /// What is wrong with the config, if anything.
    pub open spec fn fault(&self) -> Option<ConfigFault> {
        config_fault(
            self.run@,
            texts(self.runners@),
            self.default_timeout_secs,
            variant_views(self.variant@),
        )
    }

    /// Checks the config.
    pub fn validate(&self) -> (r: Result<(), ConfigError>)
        ensures
            match r {
                Ok(()) => self.fault() is None,
                Err(e) => self.fault() == Some(e@),
            },
    {
        if self.run.as_str().is_empty() {
            return Err(ConfigError::EmptyRun);
        }
        if self.runners.len() == 0 {
            return Err(ConfigError::NoRunners);
        }
        if self.default_timeout_secs == 0 {
            return Err(ConfigError::ZeroDefaultTimeout);
        }
        let ghost vs = variant_views(self.variant@);
        let mut seen = NameSet::new();
        assert(variant_names(vs.take(0)).to_set() =~= Set::empty());
        for i in 0..self.variant.len()
            invariant
                vs == variant_views(self.variant@),
                self.run@.len() > 0,
                self.runners@.len() > 0,
                self.default_timeout_secs != 0,
                seen@ == variant_names(vs.take(i as int)).to_set(),
                basic_fault(vs.take(i as int)) is None,
        {
            let v = &self.variant[i];
            let ghost next = vs.take(i + 1);
            proof {
                assert(next.drop_last() =~= vs.take(i as int));
                assert(next.last() == v@);
                assert(texts(self.runners@).len() > 0);
            }
            if seen.contains(v.name.as_str()) {
                proof {
                    assert(variant_names(vs.take(i as int)).contains(v.name@));
                    basic_fault_stays(vs, i + 1);
                }
                return Err(ConfigError::DuplicateVariant { name: v.name.clone() });
            }
            assert(!variant_names(vs.take(i as int)).contains(v.name@)) by {
                if variant_names(vs.take(i as int)).contains(v.name@) {
                    assert(variant_names(vs.take(i as int)).to_set().contains(v.name@));
                }
            }
            if v.binary.as_str().is_empty() {
                proof {
                    basic_fault_stays(vs, i + 1);
                }
                return Err(ConfigError::EmptyBinary { variant: v.name.clone() });
            }
            match v.timeout_secs {
                Some(t) => if t == 0 {
                    proof {
                        basic_fault_stays(vs, i + 1);
                    }
                    return Err(ConfigError::ZeroTimeout { variant: v.name.clone() });
                },
                None => {},
            }
            seen.insert(v.name.clone());
            proof {
                assert(variant_names(next) =~= variant_names(vs.take(i as int)).push(v.name@));
                to_set_push(variant_names(vs.take(i as int)), v.name@);
            }
        }
        assert(vs.take(vs.len() as int) =~= vs);
        for i in 0..self.variant.len()
            invariant
                vs == variant_views(self.variant@),
                self.run@.len() > 0,
                self.runners@.len() > 0,
                self.default_timeout_secs != 0,
                basic_fault(vs) is None,
                settings_fault(vs.take(i as int)) is None,
        {
            let ghost next = vs.take(i + 1);
            proof {
                assert(next.drop_last() =~= vs.take(i as int));
                assert(next.last() == self.variant@[i as int]@);
                assert(texts(self.runners@).len() > 0);
            }
            match check_settings(&self.variant[i]) {
                Ok(()) => {},
                Err(e) => {
                    proof {
                        settings_fault_stays(vs, i + 1);
                    }
                    return Err(e);
                },
            }
        }
        Ok(())
    }

    /// The pause between two spawns of one variant, in milliseconds.
    pub open spec fn grace(&self) -> u64 {
        match self.inter_qos_grace_ms {
            Some(n) => n,
            None => DEFAULT_INTER_QOS_GRACE_MS,
        }
    }

    /// The pause between two spawns of one variant, in milliseconds.
    pub fn inter_qos_grace_ms(&self) -> (r: u64)
        ensures
            r == self.grace(),
    {
        match self.inter_qos_grace_ms {
            Some(n) => n,
            None => DEFAULT_INTER_QOS_GRACE_MS,
        }
    }

    /// The log folder that the config sets for the runner itself.
    pub fn runner_log_dir(&self) -> (r: Option<&str>)
        ensures
            match r {
                Some(s) => optional_text(self.log_dir) == Some(s@),
                None => self.log_dir is None,
            },
    {
        match &self.log_dir {
            Some(s) => Some(s.as_str()),
            None => None,
        }
    }
}

impl BenchConfig {
    /// Takes up a config file: `raw` are its bytes and `parsed` what they say. The templates
    /// are applied and the config is checked; with it comes the hash of the file.
    pub fn from_file(raw: &[u8], parsed: BenchConfig) -> (r: Result<(BenchConfig, String), ConfigError>)
        ensures
            ({
                let ts = template_views(parsed.variant_templates@);
                let vs = variant_views(parsed.variant@);
                let n = vs.len() as int;
                let resolved = resolved_variants(vs, ts, n);
                match r {
                    Ok((config, hash)) => {
                        &&& templates_fault(template_names(ts)) is None
                        &&& all_known(vs, ts, n)
                        &&& variant_views(config.variant@) == resolved
                        &&& config.fault() is None
                        &&& hash@ == hex(sha256(raw@))
                        &&& config.run@ == parsed.run@
                        &&& texts(config.runners@) == texts(parsed.runners@)
                        &&& config.default_timeout_secs == parsed.default_timeout_secs
                        &&& config.inter_qos_grace_ms == parsed.inter_qos_grace_ms
                        &&& optional_text(config.log_dir) == optional_text(parsed.log_dir)
                    },
                    Err(e) => match templates_fault(template_names(ts)) {
                        Some(fault) => e@ == fault,
                        None => if all_known(vs, ts, n) {
                            config_fault(
                                parsed.run@,
                                texts(parsed.runners@),
                                parsed.default_timeout_secs,
                                resolved,
                            ) == Some(e@)
                        } else {
                            exists|k: int|
                                {
                                    &&& 0 <= k < n
                                    &&& all_known(vs, ts, k)
                                    &&& resolved_by_name(#[trigger] vs[k], ts) is None
                                    &&& e@ == (ConfigFault::UnknownTemplate {
                                        variant: vs[k].name,
                                        template: vs[k].template->0,
                                    })
                                }
                        },
                    },
                }
            }),
    {
        let mut config = parsed;
        match config.resolve_templates() {
            Ok(()) => {},
            Err(e) => return Err(e),
        }
        match config.validate() {
            Ok(()) => {},
            Err(e) => return Err(e),
        }
        let hash = config_hash(raw);
        Ok((config, hash))
    }
}

/// In a config without a fault the variants have distinct names, each has a binary
/// and a timeout that is not zero, and their dimensions can be read.
pub proof fn valid_config_facts(
    run: Seq<char>,
    runners: Seq<Seq<char>>,
    default_timeout_secs: u64,
    vs: Seq<VariantView>,
    i: int,
)
    requires
        config_fault(run, runners, default_timeout_secs, vs) is None,
        0 <= i < vs.len(),
    ensures
        vs[i].binary.len() > 0,
        vs[i].timeout_secs != Some(0u64),
        forall|j: int| 0 <= j < i ==> (#[trigger] vs[j]).name != vs[i].name,
        qos_reading(lookup(vs[i].common, "qos"@)) is Ok,
        required_positive(vs[i].common, "tick_rate_hz"@) is Ok,
        required_positive(vs[i].common, "values_per_tick"@) is Ok,
    decreases vs.len(),
{
    let t = vs.drop_last();
    if i < t.len() {
        valid_config_facts(run, runners, default_timeout_secs, t, i);
        assert(t[i] == vs[i]);
        assert forall|j: int| 0 <= j < i implies (#[trigger] vs[j]).name != vs[i].name by {
            assert(t[j] == vs[j]);
        }
    } else {
        let names = variant_names(t);
        assert forall|j: int| 0 <= j < i implies (#[trigger] vs[j]).name != vs[i].name by {
            assert(names[j] == vs[j].name);
            if vs[j].name == vs[i].name {
                assert(names.contains(vs[i].name));
            }
        }
    }
}

// ---------------------------------------------------------------------
// Hash
// ---------------------------------------------------------------------

/// The SHA-256 digest of some bytes.
pub uninterp spec fn sha256(bytes: Seq<u8>) -> Seq<u8>;

/// The digest that `sha2::Sha256` computes of the bytes; it has 32 bytes.
#[verifier::external_body]
fn sha256_digest(raw: &[u8]) -> (r: Vec<u8>)
    ensures
        r@ == sha256(raw@),
        r@.len() == 32,
{
    <sha2::Sha256 as sha2::Digest>::digest(raw).to_vec()
}

/// The lower-case hexadecimal digit.
pub open spec fn hex_digit(n: int) -> char {
    if n == 0 { '0' } else if n == 1 { '1' } else if n == 2 { '2' } else if n == 3 { '3' }
    else if n == 4 { '4' } else if n == 5 { '5' } else if n == 6 { '6' } else if n == 7 { '7' }
    else if n == 8 { '8' } else if n == 9 { '9' } else if n == 10 { 'a' } else if n == 11 { 'b' }
    else if n == 12 { 'c' } else if n == 13 { 'd' } else if n == 14 { 'e' } else { 'f' }
}

/// Two hexadecimal digits for each byte.
pub open spec fn hex(bytes: Seq<u8>) -> Seq<char> {
    Seq::new(
        2 * bytes.len(),
        |i: int|
            if i % 2 == 0 {
                hex_digit(bytes[i / 2] as int / 16)
            } else {
                hex_digit(bytes[i / 2] as int % 16)
            },
    )
}

fn hex_digit_of(n: u8) -> (c: char)
    requires
        n < 16,
    ensures
        c == hex_digit(n as int),
{
    match n {
        0 => '0',
        1 => '1',
        2 => '2',
        3 => '3',
        4 => '4',
        5 => '5',
        6 => '6',
        7 => '7',
        8 => '8',
        9 => '9',
        10 => 'a',
        11 => 'b',
        12 => 'c',
        13 => 'd',
        14 => 'e',
        _ => 'f',
    }
}

/// The bytes in lower-case hexadecimal.
pub fn hex_encode(bytes: &[u8]) -> (r: String)
    ensures
        r@ == hex(bytes@),
{
    let mut s = String::new();
    for i in 0..bytes.len()
        invariant
            s@ == hex(bytes@).take(2 * i),
    {
        let b: u8 = bytes[i];
        s.push(hex_digit_of(b / 16));
        s.push(hex_digit_of(b % 16));
        assert(s@ =~= hex(bytes@).take(2 * (i + 1)));
    }
    assert(s@ =~= hex(bytes@));
    s
}

proof fn hex_at(a: Seq<u8>, i: int)
    requires
        0 <= i < a.len(),
    ensures
        hex(a)[2 * i] == hex_digit(a[i] as int / 16),
        hex(a)[2 * i + 1] == hex_digit(a[i] as int % 16),
{
    let j = 2 * i;
    let k = 2 * i + 1;
    assert(j / 2 == i && k / 2 == i && j % 2 == 0 && k % 2 == 1);
    assert(0 <= j < 2 * a.len() && 0 <= k < 2 * a.len());
}

/// Different bytes have different hexadecimal texts.
pub proof fn hex_tells_bytes_apart(a: Seq<u8>, b: Seq<u8>)
    requires
        hex(a) == hex(b),
    ensures
        a == b,
{
    assert(hex(a).len() == 2 * a.len() && hex(b).len() == 2 * b.len());
    assert(a.len() == b.len());
    assert forall|i: int| 0 <= i < a.len() implies a[i] == b[i] by {
        assert(hex(a)[2 * i] == hex(b)[2 * i]);
        assert(hex(a)[2 * i + 1] == hex(b)[2 * i + 1]);
        let x = a[i] as int;
        let y = b[i] as int;
        hex_at(a, i);
        hex_at(b, i);
        assert(hex_digit(x / 16) == hex_digit(y / 16));
        assert(hex_digit(x % 16) == hex_digit(y % 16));
        assert(0 <= x / 16 < 16 && 0 <= y / 16 < 16);
        assert(x / 16 == y / 16);
        assert(x % 16 == y % 16);
    }
    assert(a =~= b);
}

/// The hash by which runners tell whether they share a config: the SHA-256 digest of
/// the file in hexadecimal.
pub fn config_hash(raw: &[u8]) -> (r: String)
    ensures
        r@ == hex(sha256(raw@)),
        r@.len() == 64,
{
    let digest = sha256_digest(raw);
    hex_encode(digest.as_slice())
}

// ---------------------------------------------------------------------
// Laws of configs
// ---------------------------------------------------------------------

/// What a variant is after its template was applied, in full: it keeps its name, its modes
/// and every setting of its own; a binary, a timeout and settings that it leaves open it
/// has from the template; and it has no others.
pub proof fn template_in_full(v: VariantView, t: TemplateView, key: Seq<char>)
    ensures
        ({
            let r = resolved(v, t);
            &&& r.name == v.name && r.template == v.template && r.supported_modes == v.supported_modes
            &&& r.binary == (if v.binary.len() > 0 || t.binary is None {
                v.binary
            } else {
                t.binary->0
            })
            &&& r.timeout_secs == (if v.timeout_secs is Some {
                v.timeout_secs
            } else {
                t.timeout_secs
            })
            &&& r.common.contains_key(key) <==> v.common.contains_key(key) || (t.common is Some
                && t.common->0.contains_key(key))
            &&& v.common.contains_key(key) ==> r.common[key] == v.common[key]
            &&& !v.common.contains_key(key) && r.common.contains_key(key) ==> r.common[key]
                == t.common->0[key]
            &&& r.specific is Some <==> v.specific is Some || t.specific is Some
            &&& r.specific is Some ==> {
                let own = v.specific is Some && v.specific->0.contains_key(key);
                let given = t.specific is Some && t.specific->0.contains_key(key);
                &&& r.specific->0.contains_key(key) <==> own || given
                &&& own ==> r.specific->0[key] == v.specific->0[key]
                &&& !own && given ==> r.specific->0[key] == t.specific->0[key]
            }
        }),
{
}

/// The template of a variant is the first with the name that the variant gives; where there
/// is none of that name the variant cannot be resolved, and where it names none it stays as
/// it is.
pub proof fn template_goes_by_its_name(v: VariantView, ts: Seq<TemplateView>)
    ensures
        v.template is None ==> resolved_by_name(v, ts) == Some(v),
        v.template is Some ==> (resolved_by_name(v, ts) is Some <==> exists|i: int|
            0 <= i < ts.len() && (#[trigger] ts[i]).name == v.template->0),
        v.template is Some && resolved_by_name(v, ts) is Some ==> exists|i: int|
            {
                &&& 0 <= i < ts.len()
                &&& (#[trigger] ts[i]).name == v.template->0
                &&& resolved_by_name(v, ts)->0 == resolved(v, ts[i])
                &&& forall|j: int| 0 <= j < i ==> (#[trigger] ts[j]).name != v.template->0
            },
{
    match v.template {
        None => {},
        Some(name) => {
            let names = template_names(ts);
            crate::names::first_index_facts(names, name);
            match first_index(names, name) {
                Some(i) => {
                    assert(names[i] == ts[i].name);
                    assert forall|j: int| 0 <= j < i implies (#[trigger] ts[j]).name != name by {
                        assert(names[j] == ts[j].name);
                    }
                },
                None => {
                    assert forall|i: int| 0 <= i < ts.len() implies (#[trigger] ts[i]).name != name by {
                        assert(names[i] == ts[i].name);
                        assert(names.contains(names[i]));
                    }
                },
            }
        },
    }
}

/// The templates are in order just where each has a name and no two have the same; else the
/// error names the first that is not.
pub proof fn templates_need_names_of_their_own(names: Seq<Seq<char>>)
    ensures
        templates_fault(names) is None <==> (forall|i: int|
            0 <= i < names.len() ==> (#[trigger] names[i]).len() > 0) && (forall|i: int, j: int|
            0 <= i < j < names.len() ==> #[trigger] names[i] != #[trigger] names[j]),
        templates_fault(names) is Some ==> templates_fault(names) == Some(ConfigFault::EmptyTemplateName)
            || exists|i: int, j: int|
            0 <= i < j < names.len() && #[trigger] names[i] == #[trigger] names[j] && templates_fault(names)
                == Some(ConfigFault::DuplicateTemplate { name: names[j] }),
        templates_fault(names) == Some(ConfigFault::EmptyTemplateName) ==> exists|i: int|
            0 <= i < names.len() && (#[trigger] names[i]).len() == 0,
    decreases names.len(),
{
    if names.len() > 0 {
        let t = names.drop_last();
        let n = names.len() - 1;
        templates_need_names_of_their_own(t);
        assert forall|i: int| 0 <= i < n implies t[i] == #[trigger] names[i] by {}
        assert(names[n] == names.last());
        match templates_fault(t) {
            Some(e) => {
                if e == ConfigFault::EmptyTemplateName {
                    let i = choose|i: int| 0 <= i < t.len() && (#[trigger] t[i]).len() == 0;
                    assert(names[i].len() == 0);
                } else {
                    let (i, j) = choose|i: int, j: int|
                        0 <= i < j < t.len() && #[trigger] t[i] == #[trigger] t[j] && templates_fault(t)
                            == Some(ConfigFault::DuplicateTemplate { name: t[j] });
                    assert(names[i] == names[j]);
                }
            },
            None => {
                if t.contains(names.last()) {
                    let i = choose|i: int| 0 <= i < t.len() && t[i] == names.last();
                    assert(names[i] == names[n]);
                } else {
                    assert forall|i: int, j: int| 0 <= i < j < names.len() implies #[trigger] names[i]
                        != #[trigger] names[j] by {
                        assert(t[i] == names[i]);
                        if j < n {
                            assert(t[j] == names[j]);
                        } else {
                            assert(t.contains(t[i]));
                        }
                    }
                    if names.last().len() > 0 {
                        assert forall|i: int| 0 <= i < names.len() implies (#[trigger] names[i]).len() > 0 by {
                            if i < n {
                                assert(t[i] == names[i]);
                            }
                        }
                    }
                }
            },
        }
    }
}

/// The variant has a binary and a timeout that can be used.
pub open spec fn can_be_started(v: VariantView) -> bool {
    v.binary.len() > 0 && v.timeout_secs != Some(0u64)
}

/// The settings of the variant that span its spawns can be read.
pub open spec fn can_be_expanded(v: VariantView) -> bool {
    &&& qos_reading(lookup(v.common, "qos"@)) is Ok
    &&& v.common.contains_key("tick_rate_hz"@) && positive_reading(v.common["tick_rate_hz"@]) is Ok
    &&& v.common.contains_key("values_per_tick"@) && positive_reading(v.common["values_per_tick"@]) is Ok
}

proof fn no_basic_fault(vs: Seq<VariantView>)
    ensures
        basic_fault(vs) is None <==> (forall|i: int|
            0 <= i < vs.len() ==> can_be_started(#[trigger] vs[i])) && (forall|i: int, j: int|
            0 <= i < j < vs.len() ==> (#[trigger] vs[i]).name != (#[trigger] vs[j]).name),
    decreases vs.len(),
{
    if vs.len() > 0 {
        let t = vs.drop_last();
        let n = vs.len() - 1;
        no_basic_fault(t);
        let names = variant_names(t);
        assert forall|i: int| 0 <= i < n implies t[i] == #[trigger] vs[i] && names[i] == vs[i].name by {}
        assert(vs[n] == vs.last());
        if basic_fault(t) is None {
            if names.contains(vs[n].name) {
                let i = choose|i: int| 0 <= i < names.len() && names[i] == vs[n].name;
                assert(vs[i].name == vs[n].name);
            } else {
                assert forall|i: int, j: int| 0 <= i < j < vs.len() implies (#[trigger] vs[i]).name != (
                #[trigger] vs[j]).name by {
                    assert(t[i] == vs[i] && names[i] == vs[i].name);
                    assert(names.contains(names[i]));
                    if j < n {
                        assert(t[j] == vs[j]);
                    }
                }
                if can_be_started(vs[n]) {
                    assert forall|i: int| 0 <= i < vs.len() implies can_be_started(#[trigger] vs[i]) by {
                        if i < n {
                            assert(t[i] == vs[i]);
                        }
                    }
                }
            }
        } else {
            if forall|i: int| 0 <= i < vs.len() ==> can_be_started(#[trigger] vs[i]) {
                assert forall|i: int| 0 <= i < t.len() implies can_be_started(#[trigger] t[i]) by {
                    assert(t[i] == vs[i]);
                }
                let (i, j) = choose|i: int, j: int|
                    0 <= i < j < t.len() && !((#[trigger] t[i]).name != (#[trigger] t[j]).name);
                assert(vs[i].name == vs[j].name);
            }
        }
    }
}

proof fn no_settings_fault(vs: Seq<VariantView>)
    ensures
        settings_fault(vs) is None <==> forall|i: int| 0 <= i < vs.len() ==> can_be_expanded(#[trigger] vs[i]),
    decreases vs.len(),
{
    if vs.len() > 0 {
        let t = vs.drop_last();
        let n = vs.len() - 1;
        no_settings_fault(t);
        assert forall|i: int| 0 <= i < n implies t[i] == #[trigger] vs[i] by {}
        assert(vs[n] == vs.last());
        assert(setting_fault(vs[n]) is None <==> can_be_expanded(vs[n]));
        if settings_fault(t) is None {
            assert forall|i: int| 0 <= i < n implies can_be_expanded(#[trigger] vs[i]) by {
                assert(t[i] == vs[i]);
            }
        } else {
            let i = choose|i: int| 0 <= i < t.len() && !can_be_expanded(#[trigger] t[i]);
            assert(vs[i] == t[i]);
        }
    }
}

/// A config is in order just where it names a run and at least one runner, its timeout is
/// not zero, every variant has a binary and a timeout that is not zero, no two variants
/// have the same name, and the settings of each can be read. What is checked first is also
/// what is reported first: the run, the runners, the timeout.
pub proof fn config_is_in_order(
    run: Seq<char>,
    runners: Seq<Seq<char>>,
    default_timeout_secs: u64,
    vs: Seq<VariantView>,
)
    ensures
        config_fault(run, runners, default_timeout_secs, vs) is None <==> {
            &&& run.len() > 0
            &&& runners.len() > 0
            &&& default_timeout_secs > 0
            &&& forall|i: int| 0 <= i < vs.len() ==> can_be_started(#[trigger] vs[i])
            &&& forall|i: int, j: int|
                0 <= i < j < vs.len() ==> (#[trigger] vs[i]).name != (#[trigger] vs[j]).name
            &&& forall|i: int| 0 <= i < vs.len() ==> can_be_expanded(#[trigger] vs[i])
        },
        config_fault(run, runners, default_timeout_secs, vs) == Some(ConfigFault::EmptyRun) <==> run.len()
            == 0,
        config_fault(run, runners, default_timeout_secs, vs) == Some(ConfigFault::NoRunners) <==> run.len()
            > 0 && runners.len() == 0,
        config_fault(run, runners, default_timeout_secs, vs) == Some(ConfigFault::ZeroDefaultTimeout)
            <==> run.len() > 0 && runners.len() > 0 && default_timeout_secs == 0,
{
    no_basic_fault(vs);
    no_settings_fault(vs);
    basic_fault_names_a_variant(vs);
    settings_fault_names_a_variant(vs);
}

/// The variant at fault is named: the first that has the name of one before it, no binary
/// or a timeout of zero.
pub proof fn basic_fault_names_a_variant(vs: Seq<VariantView>)
    ensures
        basic_fault(vs) is Some ==> exists|k: int|
            {
                &&& 0 <= k < vs.len()
                &&& basic_fault(vs.take(k)) is None
                &&& match basic_fault(vs)->0 {
                    ConfigFault::DuplicateVariant { name } => name == (#[trigger] vs[k]).name && exists|j: int|
                        0 <= j < k && (#[trigger] vs[j]).name == name,
                    ConfigFault::EmptyBinary { variant } => variant == vs[k].name && vs[k].binary.len() == 0,
                    ConfigFault::ZeroTimeout { variant } => variant == vs[k].name && vs[k].timeout_secs
                        == Some(0u64),
                    _ => false,
                }
            },
    decreases vs.len(),
{
    if vs.len() > 0 {
        let t = vs.drop_last();
        let n = vs.len() - 1;
        basic_fault_names_a_variant(t);
        assert forall|i: int| 0 <= i < n implies t[i] == #[trigger] vs[i] by {}
        if basic_fault(t) is Some {
            let k = choose|k: int|
                {
                    &&& 0 <= k < t.len()
                    &&& basic_fault(t.take(k)) is None
                    &&& match basic_fault(t)->0 {
                        ConfigFault::DuplicateVariant { name } => name == (#[trigger] t[k]).name && exists|j: int|
                            0 <= j < k && (#[trigger] t[j]).name == name,
                        ConfigFault::EmptyBinary { variant } => variant == t[k].name && t[k].binary.len() == 0,
                        ConfigFault::ZeroTimeout { variant } => variant == t[k].name && t[k].timeout_secs
                            == Some(0u64),
                        _ => false,
                    }
                };
            assert(vs.take(k) =~= t.take(k));
            assert(vs[k] == t[k]);
            match basic_fault(t)->0 {
                ConfigFault::DuplicateVariant { name } => {
                    let j = choose|j: int| 0 <= j < k && (#[trigger] t[j]).name == name;
                    assert(vs[j].name == name);
                },
                _ => {},
            }
        } else if basic_fault(vs) is Some {
            assert(vs.take(n) =~= t);
            assert(vs[n] == vs.last());
            let names = variant_names(t);
            if names.contains(vs[n].name) {
                let j = choose|j: int| 0 <= j < names.len() && names[j] == vs[n].name;
                assert(vs[j].name == vs[n].name);
            }
        }
    }
}

proof fn settings_fault_names_a_variant(vs: Seq<VariantView>)
    ensures
        settings_fault(vs) is Some ==> settings_fault(vs)->0 is InvalidSetting,
    decreases vs.len(),
{
    if vs.len() > 0 {
        settings_fault_names_a_variant(vs.drop_last());
    }
}

/// Between the spawns of a variant there is the pause that the config sets, and a quarter of
/// a second where it sets none.
pub proof fn pause_between_spawns(config: BenchConfig)
    ensures
        config.inter_qos_grace_ms is Some ==> config.grace() == config.inter_qos_grace_ms->0,
        config.inter_qos_grace_ms is None ==> config.grace() == 250,
{
}

/// The number that a hexadecimal digit in lower case stands for.
pub open spec fn hex_value(c: char) -> int {
    if '0' <= c && c <= '9' {
        c as u32 - 48
    } else if 'a' <= c && c <= 'f' {
        c as u32 - 97 + 10
    } else {
        -1
    }
}

/// The hexadecimal text has two digits in lower case for each byte, which stand for it.
pub proof fn hex_reads_back(bytes: Seq<u8>, i: int)
    requires
        0 <= i < bytes.len(),
    ensures
        hex(bytes).len() == 2 * bytes.len(),
        hex_value(hex(bytes)[2 * i]) >= 0 && hex_value(hex(bytes)[2 * i + 1]) >= 0,
        16 * hex_value(hex(bytes)[2 * i]) + hex_value(hex(bytes)[2 * i + 1]) == bytes[i],
{
    hex_at(bytes, i);
    let b = bytes[i] as int;
    assert(0 <= b / 16 < 16 && 0 <= b % 16 < 16);
    assert(hex_value(hex_digit(b / 16)) == b / 16);
    assert(hex_value(hex_digit(b % 16)) == b % 16);
}

/// What is found under a key is what stands there, and nothing where nothing does.
pub proof fn keys_find_their_values(t: TableView, key: Seq<char>)
    ensures
        t.contains_key(key) ==> lookup(t, key) == Some(t[key]),
        !t.contains_key(key) ==> lookup(t, key) is None,
{
}

/// A setting that has to be there is read where it is, and is at fault where it is not.
pub proof fn required_settings_have_to_be_there(t: TableView, key: Seq<char>)
    ensures
        t.contains_key(key) ==> required_positive(t, key) == positive_reading(t[key]),
        !t.contains_key(key) ==> required_positive(t, key) == Err::<PositiveView, Flaw>(plain(Fault::Missing)),
{
}

/// A variant is waited for as long as it says itself, and else as long as the config says.
pub proof fn own_timeout_comes_first(v: &VariantConfig, default: u64, r: u64)
    requires
        call_ensures(VariantConfig::effective_timeout, (v, default), r),
    ensures
        v.timeout_secs is Some ==> r == v.timeout_secs->0,
        v.timeout_secs is None ==> r == default,
{
}

/// What a variant is taken for is what the config says of it.
pub proof fn variants_are_taken_for_what_they_are(vs: Seq<VariantConfig>, ts: Seq<VariantTemplate>)
    ensures
        variant_views(vs).len() == vs.len(),
        forall|i: int|
            0 <= i < vs.len() ==> {
                let v = variant_views(vs)[i];
                &&& v.name == (#[trigger] vs[i]).name@ && v.binary == vs[i].binary@
                &&& v.timeout_secs == vs[i].timeout_secs
                &&& v.common == table_view(vs[i].common)
                &&& v.template is Some <==> vs[i].template is Some
                &&& v.template is Some ==> v.template->0 == vs[i].template->0@
                &&& v.specific is Some <==> vs[i].specific is Some
                &&& v.specific is Some ==> v.specific->0 == table_view(vs[i].specific->0)
                &&& v.supported_modes is Some <==> vs[i].supported_modes is Some
                &&& v.supported_modes is Some ==> v.supported_modes->0 == texts(vs[i].supported_modes->0@)
            },
        template_views(ts).len() == ts.len(),
        forall|i: int|
            0 <= i < ts.len() ==> {
                let t = template_views(ts)[i];
                &&& t.name == (#[trigger] ts[i]).name@ && t.timeout_secs == ts[i].timeout_secs
                &&& t.binary is Some <==> ts[i].binary is Some
                &&& t.binary is Some ==> t.binary->0 == ts[i].binary->0@
                &&& t.common is Some <==> ts[i].common is Some
                &&& t.common is Some ==> t.common->0 == table_view(ts[i].common->0)
                &&& t.specific is Some <==> ts[i].specific is Some
                &&& t.specific is Some ==> t.specific->0 == table_view(ts[i].specific->0)
            },
{
}

/// What is checked of a config is its run, its runners, its timeout and its variants.
pub proof fn configs_are_checked_as_they_are(config: BenchConfig)
    ensures
        config.fault() == config_fault(
            config.run@,
            texts(config.runners@),
            config.default_timeout_secs,
            variant_views(config.variant@),
        ),
{
}

/// What a config file gives, where it gives anything: the config that it says, each variant
/// with its template applied, in order, and with the hash of the file.
pub proof fn config_files_are_resolved_and_checked(
    raw: &[u8],
    parsed: BenchConfig,
    r: Result<(BenchConfig, String), ConfigError>,
)
    requires
        call_ensures(BenchConfig::from_file, (raw, parsed), r),
        r is Ok,
    ensures
        ({
            let (config, hash) = r->Ok_0;
            let vs = variant_views(parsed.variant@);
            let ts = template_views(parsed.variant_templates@);
            &&& config.run@ == parsed.run@ && texts(config.runners@) == texts(parsed.runners@)
            &&& config.default_timeout_secs == parsed.default_timeout_secs
            &&& config.inter_qos_grace_ms == parsed.inter_qos_grace_ms
            &&& hash@ == hex(sha256(raw@))
            &&& config.fault() is None
            &&& templates_fault(template_names(ts)) is None
            &&& variant_views(config.variant@).len() == vs.len()
            &&& forall|i: int|
                0 <= i < vs.len() ==> resolved_by_name(#[trigger] vs[i], ts) == Some(
                    variant_views(config.variant@)[i],
                )
        }),
{
    let (config, hash) = r->Ok_0;
    let vs = variant_views(parsed.variant@);
    let ts = template_views(parsed.variant_templates@);
    let n = vs.len() as int;
    assert(all_known(vs, ts, n));
    assert(variant_views(config.variant@) == resolved_variants(vs, ts, n));
    assert forall|i: int| 0 <= i < vs.len() implies resolved_by_name(#[trigger] vs[i], ts) == Some(
        variant_views(config.variant@)[i],
    ) by {
        assert(resolved_by_name(vs[i], ts) is Some);
        assert(resolved_variants(vs, ts, n)[i] == resolved_by_name(vs[i], ts)->0);
    }
}

/// The text of an error names the variant, the template or the setting at fault, and the full
/// text adds the cause.
pub proof fn errors_name_what_is_at_fault(
    variant: Seq<char>,
    template: Seq<char>,
    field: Seq<char>,
    flaw: Flaw,
)
    ensures
        (ConfigFault::UnknownTemplate { variant, template }).text() == "config: variant '"@ + variant
            + "' references unknown template '"@ + template + "'"@,
        (ConfigFault::DuplicateTemplate { name: template }).text()
            == "config: duplicate variant_template name '"@ + template + "'"@,
        (ConfigFault::DuplicateVariant { name: variant }).text() == "config: duplicate variant name '"@ + variant
            + "'"@,
        (ConfigFault::EmptyBinary { variant }).text() == "config: variant '"@ + variant
            + "' has an empty 'binary' path"@,
        (ConfigFault::ZeroTimeout { variant }).text() == "config: variant '"@ + variant
            + "' has timeout_secs of 0 (must be positive)"@,
        (ConfigFault::InvalidSetting { variant, field, flaw }).full_text() == "config: variant '"@ + variant
            + "' has invalid "@ + field + ": "@ + flaw_full_text(field, flaw),
{
}

/// Where the templates of a config can be resolved, each variant is the one that its template
/// makes of it, and nothing else of the config changes.
pub proof fn templates_are_resolved_in_full(c: &mut BenchConfig, r: Result<(), ConfigError>, i: int)
    requires
        call_ensures(BenchConfig::resolve_templates, (c,), r),
    ensures
        final(c).run@ == old(c).run@,
        texts(final(c).runners@) == texts(old(c).runners@),
        final(c).default_timeout_secs == old(c).default_timeout_secs,
        final(c).inter_qos_grace_ms == old(c).inter_qos_grace_ms,
        final(c).log_dir is Some <==> old(c).log_dir is Some,
        final(c).log_dir is Some ==> final(c).log_dir->0@ == old(c).log_dir->0@,
        variant_views(final(c).variant@).len() == variant_views(old(c).variant@).len(),
        r is Ok && 0 <= i < variant_views(old(c).variant@).len() ==> resolved_by_name(
            variant_views(old(c).variant@)[i],
            template_views(old(c).variant_templates@),
        ) == Some(variant_views(final(c).variant@)[i]),
        r is Ok ==> templates_fault(template_names(template_views(old(c).variant_templates@))) is None,
{
    let vs = variant_views(old(c).variant@);
    let ts = template_views(old(c).variant_templates@);
    let now = variant_views(final(c).variant@);
    assert(optional_text(final(c).log_dir) == optional_text(old(c).log_dir));
    if r is Ok && 0 <= i < vs.len() {
        assert(resolved_by_name(vs[i], ts) is Some);
        assert(now[i] == resolved_variants(vs, ts, vs.len() as int)[i]);
    }
}

/// A config is accepted just where it has a run, runners and a time, and where every variant
/// can be started and expanded and has a name of its own.
pub proof fn configs_are_accepted_in_full(c: &BenchConfig, r: Result<(), ConfigError>)
    requires
        call_ensures(BenchConfig::validate, (c,), r),
    ensures
        ({
            let vs = variant_views(c.variant@);
            r is Ok <==> {
                &&& c.run@.len() > 0
                &&& c.runners@.len() > 0
                &&& c.default_timeout_secs > 0
                &&& forall|i: int| 0 <= i < vs.len() ==> can_be_started(#[trigger] vs[i])
                &&& forall|i: int, j: int|
                    0 <= i < j < vs.len() ==> (#[trigger] vs[i]).name != (#[trigger] vs[j]).name
                &&& forall|i: int| 0 <= i < vs.len() ==> can_be_expanded(#[trigger] vs[i])
            }
        }),
{
    config_is_in_order(c.run@, texts(c.runners@), c.default_timeout_secs, variant_views(c.variant@));
}

/// The settings of a variant are read where they stand, each under its own key.
pub proof fn settings_are_read_under_their_keys(
    v: &VariantConfig,
    qos: Result<QosSpec, SpecError>,
    hz: Result<PositiveSpec, SpecError>,
    vpt: Result<PositiveSpec, SpecError>,
    modes: Result<ThreadingSpec, SpecError>,
    kb: Result<u32, SpecError>,
)
    requires
        call_ensures(VariantConfig::qos_spec, (v,), qos),
        call_ensures(VariantConfig::tick_rate_spec, (v,), hz),
        call_ensures(VariantConfig::values_per_tick_spec, (v,), vpt),
        call_ensures(VariantConfig::threading_modes_spec, (v,), modes),
        call_ensures(VariantConfig::recv_buffer_kb, (v,), kb),
    ensures
        !v@.common.contains_key("qos"@) ==> qos is Ok && qos->Ok_0@ == QosView::All,
        v@.common.contains_key("qos"@) && qos is Ok ==> qos_reading(Some(v@.common["qos"@])) == Ok::<
            QosView,
            Flaw,
        >(qos->Ok_0@),
        hz is Ok ==> v@.common.contains_key("tick_rate_hz"@) && positive_reading(
            v@.common["tick_rate_hz"@],
        ) == Ok::<PositiveView, Flaw>(hz->Ok_0@),
        vpt is Ok ==> v@.common.contains_key("values_per_tick"@) && positive_reading(
            v@.common["values_per_tick"@],
        ) == Ok::<PositiveView, Flaw>(vpt->Ok_0@),
        !v@.common.contains_key("threading_modes"@) ==> modes is Ok && modes->Ok_0.requested@ == seq![
            ThreadingMode::Single,
        ],
        v@.common.contains_key("threading_modes"@) && modes is Ok ==> modes_reading(
            Some(v@.common["threading_modes"@]),
        ) == Ok::<Seq<ThreadingMode>, Flaw>(modes->Ok_0.requested@),
        !v@.common.contains_key("recv_buffer_kb"@) ==> kb is Ok && kb->Ok_0 == 4096,
        v@.common.contains_key("recv_buffer_kb"@) && kb is Ok ==> v@.common["recv_buffer_kb"@]
            == ValueView::Integer(kb->Ok_0 as i64),
{
}

/// The folder and the pause of a config are those that it sets; without a pause it is 250
/// milliseconds.
pub proof fn folder_and_pause_are_those_of_the_config(c: &BenchConfig, dir: Option<&str>, pause: u64)
    requires
        call_ensures(BenchConfig::runner_log_dir, (c,), dir),
        call_ensures(BenchConfig::inter_qos_grace_ms, (c,), pause),
    ensures
        dir is Some <==> c.log_dir is Some,
        dir is Some ==> dir->0@ == c.log_dir->0@,
        c.inter_qos_grace_ms is Some ==> pause == c.inter_qos_grace_ms->0,
        c.inter_qos_grace_ms is None ==> pause == 250,
{
}

} // verus!
