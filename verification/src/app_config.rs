use vstd::prelude::*;

use crate::num::{spec_parse_decimal, spec_render_decimal, Decimal};
use crate::parse::{
    debug_key, eq_bytes, false_bytes, fixversion_key, make_false_bytes, make_true_bytes,
    parse_file, spec_parse_file, true_bytes, FileRecordV, SourceValueV,
};

verus! {

/// Why configuration resolution failed.
#[derive(Clone, Copy, Debug, PartialEq, Eq, Structural)]
pub enum ConfigError {
    /// The file source could not be read at all.
    SourceUnavailable,
    /// The file source is not well-formed key-value text.
    ParseError,
    /// A required key is present in neither source.
    MissingField,
    /// A key is present but its value has the wrong type, or an environment
    /// override cannot be coerced to the field's type.
    TypeMismatch,
}

/// One process environment entry, as handed in by the embedding process.
#[derive(Debug)]
pub struct EnvEntry {
    pub name: Vec<u8>,
    pub value: Vec<u8>,
}

pub struct EnvEntryV {
    pub name: Seq<u8>,
    pub value: Seq<u8>,
}

impl View for EnvEntry {
    type V = EnvEntryV;

    open spec fn view(&self) -> EnvEntryV {
        EnvEntryV { name: self.name@, value: self.value@ }
    }
}

pub open spec fn env_views(env: Seq<EnvEntry>) -> Seq<EnvEntryV> {
    env.map_values(|e: EnvEntry| e@)
}

pub open spec fn file_view(file: Option<Vec<u8>>) -> Option<Seq<u8>> {
    match file {
        Some(v) => Some(v@),
        None => None,
    }
}

/// The resolved configuration record: immutable once produced.
#[derive(Clone, Copy, Debug, PartialEq, Eq, Structural)]
pub struct AppConfig {
    pub debug: bool,
    pub fixversion: Decimal,
}

/// ASCII lower case of one byte.
pub open spec fn lower(b: u8) -> u8 {
    if 65 <= b && b <= 90 {
        (b + 32) as u8
    } else {
        b
    }
}

pub open spec fn lower_seq(s: Seq<u8>) -> Seq<u8> {
    s.map_values(|b: u8| lower(b))
}

/// The environment prefix `app_`, compared after lower-casing, so that
/// `APP_DEBUG` reaches the `debug` field.
pub open spec fn app_prefix() -> Seq<u8> {
    seq![97u8, 112u8, 112u8, 95u8]
}

pub open spec fn env_matches(name: Seq<u8>, field: Seq<u8>) -> bool {
    lower_seq(name) == app_prefix() + field
}

/// The first environment entry whose name, case-insensitively, is the
/// prefix followed by the field name.
pub open spec fn spec_env_value(env: Seq<EnvEntryV>, field: Seq<u8>) -> Option<Seq<u8>>
    decreases env.len(),
{
    if env.len() == 0 {
        None
    } else if env_matches(env[0].name, field) {
        Some(env[0].value)
    } else {
        spec_env_value(env.drop_first(), field)
    }
}

/// An environment override for a boolean field must be the word `true` or
/// `false`; anything else is a type mismatch, never a default.
pub open spec fn coerce_bool(v: Seq<u8>) -> Result<bool, ConfigError> {
    if v == true_bytes() {
        Ok(true)
    } else if v == false_bytes() {
        Ok(false)
    } else {
        Err(ConfigError::TypeMismatch)
    }
}

/// An environment override for the decimal field must parse as a decimal
/// literal; anything else is a type mismatch, never a default.
pub open spec fn coerce_decimal(v: Seq<u8>) -> Result<Decimal, ConfigError> {
    match spec_parse_decimal(v) {
        Some(d) => Ok(d),
        None => Err(ConfigError::TypeMismatch),
    }
}

/// The `debug` field: the environment override decides when present; the
/// file value must be a boolean; a key in neither source is missing.
pub open spec fn spec_resolve_debug(rec: FileRecordV, env: Seq<EnvEntryV>) -> Result<
    bool,
    ConfigError,
> {
    match spec_env_value(env, debug_key()) {
        Some(v) => coerce_bool(v),
        None => match rec.debug {
            None => Err(ConfigError::MissingField),
            Some(SourceValueV::Bool(b)) => Ok(b),
            Some(_) => Err(ConfigError::TypeMismatch),
        },
    }
}

/// The `fixversion` field: the environment override decides when present;
/// the file value must be a decimal number; a key in neither source is
/// missing.
pub open spec fn spec_resolve_fixversion(rec: FileRecordV, env: Seq<EnvEntryV>) -> Result<
    Decimal,
    ConfigError,
> {
    match spec_env_value(env, fixversion_key()) {
        Some(v) => coerce_decimal(v),
        None => match rec.fixversion {
            None => Err(ConfigError::MissingField),
            Some(SourceValueV::Num(d)) => Ok(d),
            Some(_) => Err(ConfigError::TypeMismatch),
        },
    }
}

/// Resolution, all or nothing: no file, a file that does not parse, a
/// missing field, or an ill-typed field each fail with its own error; both
/// fields resolve or none does. `debug` is examined before `fixversion`.
pub open spec fn spec_load(file: Option<Seq<u8>>, env: Seq<EnvEntryV>) -> Result<
    AppConfig,
    ConfigError,
> {
    match file {
        None => Err(ConfigError::SourceUnavailable),
        Some(s) => match spec_parse_file(s) {
            None => Err(ConfigError::ParseError),
            Some(rec) => match spec_resolve_debug(rec, env) {
                Err(e) => Err(e),
                Ok(d) => match spec_resolve_fixversion(rec, env) {
                    Err(e) => Err(e),
                    Ok(f) => Ok(AppConfig { debug: d, fixversion: f }),
                },
            },
        },
    }
}

fn lower_byte(b: u8) -> (r: u8)
    ensures
        r == lower(b),
{
    if 65 <= b && b <= 90 {
        b + 32
    } else {
        b
    }
}

fn name_matches(name: &[u8], field: &[u8]) -> (r: bool)
    ensures
        r == env_matches(name@, field@),
{
    let mut lowered: Vec<u8> = Vec::new();
    let mut j: usize = 0;
    while j < name.len()
        invariant
            j <= name@.len(),
            lowered@.len() == j,
            forall|k: int| 0 <= k < j ==> lowered@[k] == lower(#[trigger] name@[k]),
        decreases name@.len() - j,
    {
        lowered.push(lower_byte(name[j]));
        j += 1;
    }
    proof {
        assert(lowered@ =~= lower_seq(name@));
    }
    let mut expected: Vec<u8> = Vec::new();
    expected.push(97);
    expected.push(112);
    expected.push(112);
    expected.push(95);
    expected.extend_from_slice(field);
    proof {
        assert(expected@ =~= app_prefix() + field@);
    }
    eq_bytes(lowered.as_slice(), expected.as_slice())
}

fn env_value(env: &Vec<EnvEntry>, field: &[u8]) -> (r: Option<Vec<u8>>)
    ensures
        match r {
            Some(v) => spec_env_value(env_views(env@), field@) == Some(v@),
            None => spec_env_value(env_views(env@), field@) is None,
        },
{
    let n = env.len();
    let mut k: usize = 0;
    proof {
        assert(env_views(env@).skip(0) =~= env_views(env@));
    }
    while k < n
        invariant
            k <= n,
            n == env@.len(),
            spec_env_value(env_views(env@), field@) == spec_env_value(
                env_views(env@).skip(k as int),
                field@,
            ),
        decreases n - k,
    {
        proof {
            assert(env_views(env@).skip(k as int)[0] == env@[k as int]@);
        }
        if name_matches(env[k].name.as_slice(), field) {
            return Some(env[k].value.clone());
        }
        proof {
            assert(env_views(env@).skip(k as int).drop_first() =~= env_views(env@).skip(
                k as int + 1,
            ));
        }
        k += 1;
    }
    None
}

impl AppConfig {
    /// Resolves the configuration from the text of the file source (`None`
    /// when the file could not be read at all) and the process environment
    /// entries, exactly as `spec_load` describes: file values first,
    /// environment overrides on top, every failure reported as its
    /// `ConfigError` kind.
    pub fn load(file: &Option<Vec<u8>>, env: &Vec<EnvEntry>) -> (r: Result<AppConfig, ConfigError>)
        ensures
            r == spec_load(file_view(*file), env_views(env@)),
    {
        let bytes = match file {
            None => {
                return Err(ConfigError::SourceUnavailable);
            },
            Some(bytes) => bytes,
        };
        let rec = match parse_file(bytes.as_slice()) {
            None => {
                return Err(ConfigError::ParseError);
            },
            Some(rec) => rec,
        };
        let debug_field = crate::parse::make_debug_key();
        let debug = match env_value(env, debug_field.as_slice()) {
            Some(v) => {
                if eq_bytes(v.as_slice(), make_true_bytes().as_slice()) {
                    true
                } else if eq_bytes(v.as_slice(), make_false_bytes().as_slice()) {
                    false
                } else {
                    return Err(ConfigError::TypeMismatch);
                }
            },
            None => match &rec.debug {
                None => {
                    return Err(ConfigError::MissingField);
                },
                Some(crate::parse::SourceValue::Bool(b)) => *b,
                Some(_) => {
                    return Err(ConfigError::TypeMismatch);
                },
            },
        };
        let fixversion_field = crate::parse::make_fixversion_key();
        let fixversion = match env_value(env, fixversion_field.as_slice()) {
            Some(v) => match crate::num::parse_decimal(v.as_slice()) {
                Some(d) => d,
                None => {
                    return Err(ConfigError::TypeMismatch);
                },
            },
            None => match &rec.fixversion {
                None => {
                    return Err(ConfigError::MissingField);
                },
                Some(crate::parse::SourceValue::Num(d)) => *d,
                Some(_) => {
                    return Err(ConfigError::TypeMismatch);
                },
            },
        };
        Ok(AppConfig { debug, fixversion })
    }

    /// The canonical one-line text of the record, as bytes: for instance
    /// `AppConfig { debug: true, fixversion: 3.14 }`.
    pub fn describe(&self) -> (v: Vec<u8>)
        requires
            self.fixversion.wf(),
        ensures
            v@ == spec_describe(*self),
    {
        let mut v: Vec<u8> = Vec::new();
        v.push(65);
        v.push(112);
        v.push(112);
        v.push(67);
        v.push(111);
        v.push(110);
        v.push(102);
        v.push(105);
        v.push(103);
        v.push(32);
        v.push(123);
        v.push(32);
        v.push(100);
        v.push(101);
        v.push(98);
        v.push(117);
        v.push(103);
        v.push(58);
        v.push(32);
        proof {
            assert(v@ =~= describe_head());
        }
        let mut word = if self.debug {
            make_true_bytes()
        } else {
            make_false_bytes()
        };
        v.append(&mut word);
        v.push(44);
        v.push(32);
        let mut key = crate::parse::make_fixversion_key();
        v.append(&mut key);
        v.push(58);
        v.push(32);
        let mut rendered = self.fixversion.render();
        v.append(&mut rendered);
        v.push(32);
        v.push(125);
        proof {
            assert(v@ =~= spec_describe(*self));
        }
        v
    }
}

/// `AppConfig { debug: ` as bytes.
pub open spec fn describe_head() -> Seq<u8> {
    seq![
        65u8,
        112u8,
        112u8,
        67u8,
        111u8,
        110u8,
        102u8,
        105u8,
        103u8,
        32u8,
        123u8,
        32u8,
    ] + debug_key() + seq![58u8, 32u8]
}

/// The canonical text of a record: the head, the boolean word, then
/// `, fixversion: `, the rendered decimal, and ` }`.
pub open spec fn spec_describe(c: AppConfig) -> Seq<u8> {
    describe_head() + (if c.debug {
        true_bytes()
    } else {
        false_bytes()
    }) + seq![44u8, 32u8] + fixversion_key() + seq![58u8, 32u8] + spec_render_decimal(c.fixversion)
        + seq![32u8, 125u8]
}

/// The resolved configuration, for callers that have already ruled failure
/// out; where resolution can fail, call `load` and handle the error.
pub fn config(file: &Option<Vec<u8>>, env: &Vec<EnvEntry>) -> (c: AppConfig)
    requires
        spec_load(file_view(*file), env_views(env@)) is Ok,
    ensures
        Ok::<AppConfig, ConfigError>(c) == spec_load(file_view(*file), env_views(env@)),
{
    match AppConfig::load(file, env) {
        Ok(c) => c,
        Err(_) => {
            proof {
                assert(false);
            }
            AppConfig { debug: false, fixversion: Decimal { neg: false, mantissa: 0, scale: 0 } }
        },
    }
}

/// Precedence: wherever a key is present in the environment source, the
/// resolved value is the coerced environment value, whatever the file says.
pub proof fn lemma_env_precedence(file: Option<Seq<u8>>, env: Seq<EnvEntryV>, c: AppConfig)
    requires
        spec_load(file, env) == Ok::<AppConfig, ConfigError>(c),
    ensures
        spec_env_value(env, debug_key()) matches Some(v) ==> coerce_bool(v) == Ok::<
            bool,
            ConfigError,
        >(c.debug),
        spec_env_value(env, fixversion_key()) matches Some(v) ==> coerce_decimal(v) == Ok::<
            Decimal,
            ConfigError,
        >(c.fixversion),
{
}

/// Determinism: resolution is a function of the file text and the
/// environment entries alone; equal states resolve equally.
pub proof fn lemma_load_deterministic(
    f1: Option<Seq<u8>>,
    e1: Seq<EnvEntryV>,
    f2: Option<Seq<u8>>,
    e2: Seq<EnvEntryV>,
)
    requires
        f1 == f2,
        e1 == e2,
    ensures
        spec_load(f1, e1) == spec_load(f2, e2),
{
}

/// The completeness gate: a resolved record never comes from a partial
/// source state. Success means the file was present and parsed, and each of
/// the two fields had a correctly typed value in the environment or else in
/// the file.
pub proof fn lemma_completeness_gate(file: Option<Seq<u8>>, env: Seq<EnvEntryV>)
    requires
        spec_load(file, env) is Ok,
    ensures
        file is Some && spec_parse_file(file->Some_0) is Some,
        ({
            let rec = spec_parse_file(file->Some_0)->Some_0;
            &&& match spec_env_value(env, debug_key()) {
                Some(v) => coerce_bool(v) is Ok,
                None => rec.debug matches Some(SourceValueV::Bool(_)),
            }
            &&& match spec_env_value(env, fixversion_key()) {
                Some(v) => coerce_decimal(v) is Ok,
                None => rec.fixversion matches Some(SourceValueV::Num(_)),
            }
        }),
{
}

} // verus!
