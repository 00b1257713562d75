//! Dynamic logging reconfiguration: the live logger configuration, partial
//! diffs that set only the fields to change, validation of a diff against the
//! known components, and the atomic merge that applies a valid diff — never a
//! partial one — in request order, last-committed-wins per field.

use vstd::prelude::*;
use vstd::string::*;

verus! {

/// A log verbosity level.
#[derive(Clone, Copy, Debug, PartialEq, Eq)]
pub enum LogLevel {
    Off,
    Error,
    Warn,
    Info,
    Debug,
    Trace,
}

/// The level configured for one named component of the process.
#[derive(Clone, Debug, PartialEq)]
pub struct ComponentLevel {
    pub name: String,
    pub level: LogLevel,
}

/// The whole live logging configuration: a default level and one level per
/// known component. The set of component names is fixed; a diff can change
/// levels, never add or remove components.
#[derive(Clone, Debug, PartialEq)]
#[verifier::ext_equal]
pub struct LoggerConfig {
    pub default_level: LogLevel,
    pub components: Vec<ComponentLevel>,
}

/// One requested level change, with the level still in its textual form.
#[derive(Clone, Debug, PartialEq)]
pub struct ComponentUpdate {
    pub name: String,
    pub level: String,
}

/// A partial configuration: only the fields present are to change; an unset
/// field means "leave unchanged".
#[derive(Clone, Debug, PartialEq)]
pub struct LoggerConfigDiff {
    pub default_level: Option<String>,
    pub components: Vec<ComponentUpdate>,
}

/// Why a diff was rejected. A rejected diff leaves the live configuration
/// untouched.
#[derive(Clone, Debug, PartialEq)]
pub enum ValidationError {
    /// The diff's default level is not a recognized level name.
    InvalidDefaultLevel { level: String },
    /// The diff names a component that the configuration does not know.
    UnknownComponent { name: String },
    /// The diff's level for this component is not a recognized level name.
    InvalidLevel { name: String, level: String },
}

/// The message a rejected diff is reported with: it names the invalid field
/// and the offending value.
pub open spec fn validation_message(e: ValidationError) -> Seq<char> {
    match e {
        ValidationError::InvalidDefaultLevel { level } => "invalid default log level: "@ + level@,
        ValidationError::UnknownComponent { name } => "unknown component: "@ + name@,
        ValidationError::InvalidLevel { name, level } => "invalid log level for "@ + name@ + ": "@
            + level@,
    }
}

impl ValidationError {
    /// Renders the failure for the response envelope.
    pub fn message(&self) -> (r: String)
        ensures
            r@ == validation_message(*self),
    {
        match self {
            ValidationError::InvalidDefaultLevel { level } => {
                let mut s = String::from_str("invalid default log level: ");
                s.append(level.as_str());
                proof {
                    assert(s@ =~= validation_message(*self));
                }
                s
            },
            ValidationError::UnknownComponent { name } => {
                let mut s = String::from_str("unknown component: ");
                s.append(name.as_str());
                proof {
                    assert(s@ =~= validation_message(*self));
                }
                s
            },
            ValidationError::InvalidLevel { name, level } => {
                let mut s = String::from_str("invalid log level for ");
                s.append(name.as_str());
                s.append(": ");
                s.append(level.as_str());
                proof {
                    assert(s@ =~= validation_message(*self));
                }
                s
            },
        }
    }
}

/// The level a textual level name stands for, if it is recognized.
pub open spec fn level_of_chars(s: Seq<char>) -> Option<LogLevel> {
    if s == "off"@ {
        Some(LogLevel::Off)
    } else if s == "error"@ {
        Some(LogLevel::Error)
    } else if s == "warn"@ {
        Some(LogLevel::Warn)
    } else if s == "info"@ {
        Some(LogLevel::Info)
    } else if s == "debug"@ {
        Some(LogLevel::Debug)
    } else if s == "trace"@ {
        Some(LogLevel::Trace)
    } else {
        None
    }
}

/// Parses a textual level name.
pub fn parse_level(s: &String) -> (r: Option<LogLevel>)
    ensures
        r == level_of_chars(s@),
{
    if *s == String::from_str("off") {
        Some(LogLevel::Off)
    } else if *s == String::from_str("error") {
        Some(LogLevel::Error)
    } else if *s == String::from_str("warn") {
        Some(LogLevel::Warn)
    } else if *s == String::from_str("info") {
        Some(LogLevel::Info)
    } else if *s == String::from_str("debug") {
        Some(LogLevel::Debug)
    } else if *s == String::from_str("trace") {
        Some(LogLevel::Trace)
    } else {
        None
    }
}

/// Whether the configuration knows a component of this name.
pub open spec fn has_component(components: Seq<ComponentLevel>, name: Seq<char>) -> bool {
    exists|i: int| 0 <= i < components.len() && components[i].name@ == name
}

/// Whether a diff's updates touch a component of this name.
pub open spec fn has_update(updates: Seq<ComponentUpdate>, name: Seq<char>) -> bool {
    exists|i: int| 0 <= i < updates.len() && updates[i].name@ == name
}

/// The first invalid update in a diff's component list, in diff order.
pub open spec fn updates_error(
    components: Seq<ComponentLevel>,
    updates: Seq<ComponentUpdate>,
) -> Option<ValidationError>
    decreases updates.len(),
{
    if updates.len() == 0 {
        None
    } else if !has_component(components, updates[0].name@) {
        Some(ValidationError::UnknownComponent { name: updates[0].name })
    } else if level_of_chars(updates[0].level@) is None {
        Some(ValidationError::InvalidLevel { name: updates[0].name, level: updates[0].level })
    } else {
        updates_error(components, updates.skip(1))
    }
}

/// The first invalid field of a diff against a configuration: the default
/// level is checked first, then the component updates in diff order.
pub open spec fn diff_error(config: LoggerConfig, diff: LoggerConfigDiff) -> Option<
    ValidationError,
> {
    match diff.default_level {
        Some(s) => if level_of_chars(s@) is None {
            Some(ValidationError::InvalidDefaultLevel { level: s })
        } else {
            updates_error(config.components@, diff.components@)
        },
        None => updates_error(config.components@, diff.components@),
    }
}

pub open spec fn diff_valid(config: LoggerConfig, diff: LoggerConfigDiff) -> bool {
    diff_error(config, diff) is None
}

/// The level that the updates leave a component of this name at, if they
/// touch it with a recognized level: the last matching update wins.
pub open spec fn last_level_for(updates: Seq<ComponentUpdate>, name: Seq<char>) -> Option<LogLevel>
    decreases updates.len(),
{
    if updates.len() == 0 {
        None
    } else if updates.last().name@ == name {
        level_of_chars(updates.last().level@)
    } else {
        last_level_for(updates.drop_last(), name)
    }
}

/// The default level after a diff: replaced when the diff sets a recognized
/// level, kept otherwise.
pub open spec fn merged_default(old_level: LogLevel, diff_default: Option<String>) -> LogLevel {
    match diff_default {
        Some(s) => match level_of_chars(s@) {
            Some(l) => l,
            None => old_level,
        },
        None => old_level,
    }
}

/// The component levels after a diff: each component keeps its name, and
/// takes the level of the last update that names it, if any.
pub open spec fn merged_components(
    components: Seq<ComponentLevel>,
    updates: Seq<ComponentUpdate>,
) -> Seq<ComponentLevel> {
    components.map(
        |i: int, c: ComponentLevel|
            ComponentLevel {
                name: c.name,
                level: match last_level_for(updates, c.name@) {
                    Some(l) => l,
                    None => c.level,
                },
            },
    )
}

/// Finds a component by name.
fn find_component(components: &Vec<ComponentLevel>, name: &String) -> (r: Option<usize>)
    ensures
        match r {
            Some(i) => i < components.len() && components@[i as int].name@ == name@,
            None => !has_component(components@, name@),
        },
{
    let n = components.len();
    let mut i: usize = 0;
    while i < n
        invariant
            i <= n,
            n == components.len(),
            forall|m: int| 0 <= m < i ==> #[trigger] components@[m].name@ != name@,
        decreases n - i,
    {
        if components[i].name == *name {
            return Some(i);
        }
        i += 1;
    }
    None
}

/// The level the updates leave this component name at; scans from the back,
/// so the last matching update decides.
fn find_last_level(updates: &Vec<ComponentUpdate>, name: &String) -> (r: Option<LogLevel>)
    ensures
        r == last_level_for(updates@, name@),
{
    let mut j = updates.len();
    proof {
        assert(updates@.take(j as int) =~= updates@);
    }
    loop
        invariant
            j <= updates.len(),
            last_level_for(updates@, name@) == last_level_for(updates@.take(j as int), name@),
        decreases j,
    {
        if j == 0 {
            proof {
                assert(updates@.take(0).len() == 0);
            }
            return None;
        }
        let u = &updates[j - 1];
        proof {
            assert(updates@.take(j as int).last() == updates@[j - 1]);
        }
        if u.name == *name {
            return parse_level(&u.level);
        }
        proof {
            assert(updates@.take(j as int).drop_last() =~= updates@.take(j - 1));
        }
        j -= 1;
    }
}

/// The handle on the live logging configuration. A process owns one, behind
/// its own mutual-exclusion primitive; a diff is validated first and applied
/// in full or not at all, so no reader ever sees a half-applied
/// configuration.
pub struct LoggerHandle {
    pub config: LoggerConfig,
}

impl LoggerHandle {
    pub fn new(config: LoggerConfig) -> (r: LoggerHandle)
        ensures
            r.config == config,
    {
        LoggerHandle { config }
    }

    /// A read-only snapshot of the current configuration. Never fails.
    pub fn get_config(&self) -> (r: LoggerConfig)
        ensures
            r.default_level == self.config.default_level,
            r.components@ == self.config.components@,
    {
        let n = self.config.components.len();
        let mut components: Vec<ComponentLevel> = Vec::new();
        let mut i: usize = 0;
        while i < n
            invariant
                i <= n,
                n == self.config.components.len(),
                components@.len() == i,
                forall|m: int| 0 <= m < i ==> components@[m] == #[trigger] self.config.components@[m],
            decreases n - i,
        {
            let c = &self.config.components[i];
            components.push(ComponentLevel { name: c.name.clone(), level: c.level });
            i += 1;
        }
        proof {
            assert(components@ =~= self.config.components@);
        }
        LoggerConfig { default_level: self.config.default_level, components }
    }

    /// Validates the diff against the current configuration, then atomically
    /// merges exactly the set fields into it. On any invalid field nothing
    /// changes and the error names the first invalid field; on success every
    /// set field is in effect, the last matching update winning per
    /// component.
    pub fn update_config(&mut self, diff: LoggerConfigDiff) -> (r: Result<bool, ValidationError>)
        ensures
            r is Ok <==> diff_valid(old(self).config, diff),
            r == Result::<bool, ValidationError>::Ok(true) || r is Err,
            (r matches Err(e) ==> Some(e) == diff_error(old(self).config, diff) && *final(self)
                == *old(self)),
            r is Ok ==> final(self).config.default_level == merged_default(
                old(self).config.default_level,
                diff.default_level,
            ) && final(self).config.components@ == merged_components(
                old(self).config.components@,
                diff.components@,
            ),
    {
        // Validate the default level, if the diff sets one.
        let parsed_default: Option<LogLevel> = match &diff.default_level {
            Some(s) => match parse_level(s) {
                Some(l) => Some(l),
                None => {
                    return Err(ValidationError::InvalidDefaultLevel { level: s.clone() });
                },
            },
            None => None,
        };
        proof {
            assert(match diff.default_level {
                Some(s) => level_of_chars(s@) is Some,
                None => true,
            });
        }
        // Validate every component update before touching anything.
        let n = diff.components.len();
        let mut i: usize = 0;
        proof {
            assert(diff.components@.skip(0) =~= diff.components@);
        }
        while i < n
            invariant
                i <= n,
                n == diff.components@.len(),
                *self == *old(self),
                match diff.default_level {
                    Some(s) => level_of_chars(s@) is Some,
                    None => true,
                },
                updates_error(self.config.components@, diff.components@.skip(i as int))
                    == updates_error(self.config.components@, diff.components@),
            decreases n - i,
        {
            let u = &diff.components[i];
            proof {
                assert(diff.components@.skip(i as int)[0] == diff.components@[i as int]);
            }
            if find_component(&self.config.components, &u.name).is_none() {
                return Err(ValidationError::UnknownComponent { name: u.name.clone() });
            }
            if parse_level(&u.level).is_none() {
                return Err(ValidationError::InvalidLevel {
                    name: u.name.clone(),
                    level: u.level.clone(),
                });
            }
            proof {
                assert(diff.components@.skip(i as int).skip(1) =~= diff.components@.skip(
                    i as int + 1));
            }
            i += 1;
        }
        proof {
            assert(diff.components@.skip(n as int).len() == 0);
        }
        // The diff is valid: build the merged component list, then commit it
        // and the default level together.
        let m = self.config.components.len();
        let mut merged: Vec<ComponentLevel> = Vec::new();
        let mut k: usize = 0;
        while k < m
            invariant
                k <= m,
                m == self.config.components@.len(),
                *self == *old(self),
                merged@.len() == k,
                forall|p: int| 0 <= p < k ==> merged@[p] == #[trigger] merged_components(
                    self.config.components@,
                    diff.components@,
                )[p],
            decreases m - k,
        {
            let c = &self.config.components[k];
            let level = match find_last_level(&diff.components, &c.name) {
                Some(l) => l,
                None => c.level,
            };
            merged.push(ComponentLevel { name: c.name.clone(), level });
            k += 1;
        }
        proof {
            assert(merged@ =~= merged_components(old(self).config.components@, diff.components@));
        }
        self.config.components = merged;
        if let Some(l) = parsed_default {
            self.config.default_level = l;
        }
        Ok(true)
    }
}

/// Updates that touch no component of this name leave it alone.
proof fn lemma_no_update_no_change(updates: Seq<ComponentUpdate>, name: Seq<char>)
    requires
        !has_update(updates, name),
    ensures
        last_level_for(updates, name) is None,
    decreases updates.len(),
{
    if updates.len() > 0 {
        assert(updates.last() == updates[updates.len() - 1]);
        assert(updates.last().name@ != name);
        assert(forall|i: int|
            0 <= i < updates.drop_last().len() ==> updates.drop_last()[i] == updates[i]);
        lemma_no_update_no_change(updates.drop_last(), name);
    }
}

/// Law: diffs that touch disjoint sets of fields commute — applying them in
/// either serialization order yields the same configuration, and each diff's
/// fields take effect. With overlapping fields the merge semantics already
/// fixes the result of each total order, so no field-level interleaving can
/// produce a state that neither order specifies.
pub proof fn lemma_disjoint_diffs_commute(
    config: LoggerConfig,
    d1: LoggerConfigDiff,
    d2: LoggerConfigDiff,
)
    requires
        forall|n: Seq<char>| !(has_update(d1.components@, n) && has_update(d2.components@, n)),
        d1.default_level is None || d2.default_level is None,
    ensures
        merged_default(merged_default(config.default_level, d1.default_level), d2.default_level)
            == merged_default(
            merged_default(config.default_level, d2.default_level),
            d1.default_level,
        ),
        merged_components(merged_components(config.components@, d1.components@), d2.components@)
            == merged_components(
            merged_components(config.components@, d2.components@),
            d1.components@,
        ),
{
    let c = config.components@;
    let u1 = d1.components@;
    let u2 = d2.components@;
    let ab = merged_components(merged_components(c, u1), u2);
    let ba = merged_components(merged_components(c, u2), u1);
    assert forall|i: int| 0 <= i < c.len() implies ab[i] == ba[i] by {
        let n = c[i].name@;
        assert(merged_components(c, u1)[i].name == c[i].name);
        assert(merged_components(c, u2)[i].name == c[i].name);
        assert(!(has_update(u1, n) && has_update(u2, n)));
        if !has_update(u1, n) {
            lemma_no_update_no_change(u1, n);
        }
        if !has_update(u2, n) {
            lemma_no_update_no_change(u2, n);
        }
    }
    assert(ab =~= ba);
}

} // verus!
