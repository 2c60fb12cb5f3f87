//! The log level settings: a single level, or per-module levels given as
//! `module=level` pairs separated by commas.

use vstd::prelude::*;
use vstd::string::*;
use crate::text::{
    ascii_lower_text, find_char, first_index_of, is_ascii_text, split_char, split_on, trim, trim_str,
};

verus! {

#[derive(Debug, Clone, Copy, PartialEq, Eq, Structural)]
pub enum LogLevel {
    Off,
    Error,
    Warn,
    Info,
    Debug,
    Trace,
}

/// The lower-case form of `s` that `str::to_lowercase` gives (full Unicode
/// case mapping).
pub uninterp spec fn unicode_lower(s: Seq<char>) -> Seq<char>;

/// The lower-case form of a text: for ASCII text the ASCII mapping
/// (`A`-`Z` to `a`-`z`), otherwise the Unicode mapping.
pub open spec fn lower_text(s: Seq<char>) -> Seq<char> {
    if is_ascii_text(s) {
        ascii_lower_text(s)
    } else {
        unicode_lower(s)
    }
}

/// Lower-cases a string.
///
/// Trusted: wraps `str::to_lowercase`. The contract names its result and
/// states one fact that std documents: on ASCII text the Unicode mapping is
/// the ASCII one (`to_ascii_lowercase`). The mapping of other characters is
/// not stated.
#[verifier::external_body]
fn str_to_lowercase(s: &str) -> (r: String)
    ensures
        r@ == unicode_lower(s@),
        is_ascii_text(s@) ==> r@ == ascii_lower_text(s@),
{
    s.to_lowercase()
}

/// The level a lower-cased name denotes; unknown names mean `Info`.
pub open spec fn level_of_lower(name: Seq<char>) -> LogLevel {
    if name == "trace"@ {
        LogLevel::Trace
    } else if name == "debug"@ {
        LogLevel::Debug
    } else if name == "warn"@ {
        LogLevel::Warn
    } else if name == "error"@ {
        LogLevel::Error
    } else {
        LogLevel::Info
    }
}

pub open spec fn spec_log_level(name: Seq<char>) -> LogLevel {
    level_of_lower(lower_text(name))
}

/// The level a name denotes, case-insensitively: `trace`, `debug`, `warn`,
/// `error`, and `Info` for anything else.
pub fn get_log_level(log_level: &str) -> (r: LogLevel)
    ensures
        r == spec_log_level(log_level@),
{
    let lower: String = str_to_lowercase(log_level);
    let l: &str = lower.as_str();
    if crate::text::str_eq(l, "trace") {
        LogLevel::Trace
    } else if crate::text::str_eq(l, "debug") {
        LogLevel::Debug
    } else if crate::text::str_eq(l, "warn") {
        LogLevel::Warn
    } else if crate::text::str_eq(l, "error") {
        LogLevel::Error
    } else {
        LogLevel::Info
    }
}

/// The logging setting a `--log-level` value asks for.
pub enum LogSpec {
    /// One level for everything.
    Level(LogLevel),
    /// A level per module.
    Modules(Vec<(String, LogLevel)>),
}

/// The module settings of the comma-separated parts that hold a `=`: the
/// trimmed text before the first `=` names the module, the trimmed text
/// after it (up to a second `=`) the level.
pub open spec fn module_levels(parts: Seq<Seq<char>>) -> Seq<(Seq<char>, LogLevel)>
    decreases parts.len(),
{
    if parts.len() == 0 {
        seq![]
    } else {
        let earlier = module_levels(parts.drop_last());
        let part = parts.last();
        if first_index_of(part, '=') is Some {
            let kv = split_on(part, '=');
            earlier.push((trim(kv[0]), spec_log_level(trim(kv[1]))))
        } else {
            earlier
        }
    }
}

/// Per-module levels when the value holds a `=`, otherwise one level.
pub open spec fn spec_log_spec(value: Seq<char>) -> (bool, Seq<(Seq<char>, LogLevel)>, LogLevel) {
    if first_index_of(value, '=') is Some {
        (true, module_levels(split_on(value, ',')), LogLevel::Info)
    } else {
        (false, seq![], spec_log_level(value))
    }
}

proof fn lemma_split_has_two(s: Seq<char>, c: char)
    requires
        first_index_of(s, c) is Some,
    ensures
        split_on(s, c).len() >= 2,
{
    crate::text::lemma_first_index_bound(s, c);
    let i = first_index_of(s, c).unwrap();
    let rest = s.skip(i as int + 1);
    assert(split_on(s, c) == seq![s.take(i as int)] + split_on(rest, c));
    match first_index_of(rest, c) {
        Some(j) => {
            crate::text::lemma_first_index_bound(rest, c);
            assert(split_on(rest, c) == seq![rest.take(j as int)] + split_on(rest.skip(j as int + 1), c));
        },
        None => {
            assert(split_on(rest, c) == seq![rest]);
        },
    }
}

/// Reads a `--log-level` value: `module=level` pairs separated by commas
/// when it holds a `=`, otherwise a single level.
pub fn parse_log_spec(log_level: &str) -> (r: LogSpec)
    ensures
        match r {
            LogSpec::Modules(pairs) => spec_log_spec(log_level@).0 && pairs@.map_values(
                |p: (String, LogLevel)| (p.0@, p.1),
            ) == spec_log_spec(log_level@).1,
            LogSpec::Level(level) => !spec_log_spec(log_level@).0 && level == spec_log_spec(
                log_level@,
            ).2,
        },
{
    if find_char(log_level, '=').is_none() {
        return LogSpec::Level(get_log_level(log_level));
    }
    let parts: Vec<String> = split_char(log_level, ',');
    let ghost pv = parts@.map_values(|p: String| p@);
    let mut out: Vec<(String, LogLevel)> = Vec::new();
    let n: usize = parts.len();
    let mut i: usize = 0;
    while i < n
        invariant
            n == pv.len(),
            pv == parts@.map_values(|p: String| p@),
            i <= n,
            out@.map_values(|p: (String, LogLevel)| (p.0@, p.1)) == module_levels(pv.take(i as int)),
        decreases n - i,
    {
        let part: &str = parts[i].as_str();
        assert(pv.take(i + 1).drop_last() =~= pv.take(i as int));
        assert(pv[i as int] == part@);
        if find_char(part, '=').is_some() {
            let kv: Vec<String> = split_char(part, '=');
            proof {
                lemma_split_has_two(part@, '=');
            }
            let module: &str = trim_str(kv[0].as_str());
            let level: LogLevel = get_log_level(trim_str(kv[1].as_str()));
            let ghost before = out@.map_values(|p: (String, LogLevel)| (p.0@, p.1));
            out.push((String::from_str(module), level));
            assert(kv@.map_values(|p: String| p@)[0] == kv@[0]@);
            assert(kv@.map_values(|p: String| p@)[1] == kv@[1]@);
            assert(out@.map_values(|p: (String, LogLevel)| (p.0@, p.1)) =~= before.push((module@, level)));
        }
        i = i + 1;
    }
    assert(pv.take(n as int) =~= pv);
    LogSpec::Modules(out)
}

/// The modules whose logging stays limited to errors, whatever the
/// setting: the request logger of the web server and the HTTP client
/// internals.
pub open spec fn spec_quiet_modules() -> Seq<Seq<char>> {
    seq![
        "actix_web::middleware::logger"@,
        "reqwest::async_impl::client"@,
        "reqwest::connect"@,
        "hyper_util::client"@,
    ]
}

/// The module levels set after the user's setting (see
/// [`spec_quiet_modules`]).
pub fn quiet_modules() -> (r: Vec<(String, LogLevel)>)
    ensures
        r@.map_values(|p: (String, LogLevel)| (p.0@, p.1)) == spec_quiet_modules().map_values(
            |m: Seq<char>| (m, LogLevel::Error),
        ),
{
    let mut out: Vec<(String, LogLevel)> = Vec::new();
    out.push((String::from_str("actix_web::middleware::logger"), LogLevel::Error));
    out.push((String::from_str("reqwest::async_impl::client"), LogLevel::Error));
    out.push((String::from_str("reqwest::connect"), LogLevel::Error));
    out.push((String::from_str("hyper_util::client"), LogLevel::Error));
    assert(out@.map_values(|p: (String, LogLevel)| (p.0@, p.1)) =~= spec_quiet_modules().map_values(
        |m: Seq<char>| (m, LogLevel::Error),
    ));
    out
}

} // verus!
