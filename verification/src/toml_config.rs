//! The server's configuration, with its defaults.

use crate::chimera_error::{ChimeraError, ChimeraErrorView};
use crate::text::{ascii_lower_seq, chars_eq, chars_to_lower, concat2, str_chars};
use vstd::prelude::*;

verus! {

/// How much the server logs.
#[derive(Debug, Clone, Copy, PartialEq, Eq, Structural)]
pub enum LogLevel {
    Trace,
    Debug,
    Info,
    Warning,
    Error,
}

/// The level of the logging framework that a [`LogLevel`] selects.
#[derive(Debug, Clone, Copy, PartialEq, Eq, Structural)]
pub enum TracingLevel {
    TRACE,
    DEBUG,
    INFO,
    WARN,
    ERROR,
}

/// The configuration as the file gives it: every key is optional.
#[derive(Debug)]
pub struct RawConfig {
    pub chimera_root: Option<String>,
    pub site_title: Option<String>,
    pub index_file: Option<String>,
    pub highlight_style: Option<String>,
    pub site_lang: Option<String>,
    pub image_size_file: Option<String>,
    pub generate_index: Option<bool>,
    pub log_level: Option<String>,
    pub max_cache_size: Option<usize>,
    pub port: Option<u16>,
    /// Request path and redirect target.
    pub redirects: Vec<(String, String)>,
    /// Menu label and URL, in menu order.
    pub menu: Vec<(String, String)>,
    /// Content-type prefix and maximum age in seconds, in matching order.
    pub cache_control: Vec<(String, usize)>,
}

/// The configuration the server runs with.
#[derive(Debug)]
pub struct TomlConfig {
    pub chimera_root: String,
    pub site_title: String,
    pub index_file: String,
    pub highlight_style: String,
    pub site_lang: String,
    pub image_size_file: Option<String>,
    pub generate_index: bool,
    pub log_level: LogLevel,
    pub max_cache_size: usize,
    pub port: u16,
    pub redirects: Vec<(String, String)>,
    pub menu: Vec<(String, String)>,
    pub cache_control: Vec<(String, usize)>,
}

pub fn default_chimera_root() -> (r: String)
    ensures
        r@ == "/data"@,
{
    "/data".to_string()
}

pub fn default_site_title() -> (r: String)
    ensures
        r@ == "Chimera-md"@,
{
    "Chimera-md".to_string()
}

pub fn default_index_file() -> (r: String)
    ensures
        r@ == "index.md"@,
{
    "index.md".to_string()
}

pub fn default_highlight_style() -> (r: String)
    ensures
        r@ == "an-old-hope"@,
{
    "an-old-hope".to_string()
}

pub fn default_site_lang() -> (r: String)
    ensures
        r@ == "en"@,
{
    "en".to_string()
}

pub fn default_log_level() -> (r: LogLevel)
    ensures
        r == LogLevel::Info,
{
    LogLevel::Info
}

/// Fifty mebibytes.
pub fn default_max_cache_size() -> (r: usize)
    ensures
        r == 52428800,
{
    50 * 1024 * 1024
}

pub fn default_port() -> (r: u16)
    ensures
        r == 8080,
{
    8080
}

/// The level that a name stands for, letter case aside.
pub open spec fn level_named(name: Seq<char>) -> Option<LogLevel> {
    let lower = ascii_lower_seq(name);
    if lower == "trace"@ {
        Some(LogLevel::Trace)
    } else if lower == "debug"@ {
        Some(LogLevel::Debug)
    } else if lower == "info"@ {
        Some(LogLevel::Info)
    } else if lower == "warning"@ {
        Some(LogLevel::Warning)
    } else if lower == "error"@ {
        Some(LogLevel::Error)
    } else {
        None
    }
}

/// Reads the name of a log level.
pub fn parse_log_level(name: &str) -> (r: Option<LogLevel>)
    ensures
        r == level_named(name@),
{
    let chars = str_chars(name);
    let lower = chars_to_lower(&chars);
    if chars_eq(&lower, &str_chars("trace")) {
        Some(LogLevel::Trace)
    } else if chars_eq(&lower, &str_chars("debug")) {
        Some(LogLevel::Debug)
    } else if chars_eq(&lower, &str_chars("info")) {
        Some(LogLevel::Info)
    } else if chars_eq(&lower, &str_chars("warning")) {
        Some(LogLevel::Warning)
    } else if chars_eq(&lower, &str_chars("error")) {
        Some(LogLevel::Error)
    } else {
        None
    }
}

/// The text that is given, or the default.
pub open spec fn text_or(given: Option<String>, default: Seq<char>) -> Seq<char> {
    match given {
        Some(s) => s@,
        None => default,
    }
}

/// The message of the error for an unknown log level.
pub open spec fn unknown_level_message(name: Seq<char>) -> Seq<char> {
    "unknown log level: "@ + name
}

fn or_default(given: Option<String>, default: String) -> (r: String)
    ensures
        r@ == text_or(given, default@),
{
    match given {
        Some(s) => s,
        None => default,
    }
}

impl TomlConfig {
    /// Applies the defaults to what the configuration file gives. The one
    /// thing that can be wrong with it is the name of the log level.
    pub fn read_config(raw: RawConfig) -> (r: Result<TomlConfig, ChimeraError>)
        ensures
            match raw.log_level {
                Some(name) if level_named(name@) is None => r is Err && r->Err_0@
                    == ChimeraErrorView::TomlError(unknown_level_message(name@)),
                _ => {
                    &&& r is Ok
                    &&& r->Ok_0.chimera_root@ == text_or(raw.chimera_root, "/data"@)
                    &&& r->Ok_0.site_title@ == text_or(raw.site_title, "Chimera-md"@)
                    &&& r->Ok_0.index_file@ == text_or(raw.index_file, "index.md"@)
                    &&& r->Ok_0.highlight_style@ == text_or(raw.highlight_style, "an-old-hope"@)
                    &&& r->Ok_0.site_lang@ == text_or(raw.site_lang, "en"@)
                    &&& r->Ok_0.image_size_file == raw.image_size_file
                    &&& r->Ok_0.generate_index == match raw.generate_index {
                        Some(b) => b,
                        None => false,
                    }
                    &&& r->Ok_0.log_level == match raw.log_level {
                        Some(name) => level_named(name@)->0,
                        None => LogLevel::Info,
                    }
                    &&& r->Ok_0.max_cache_size == match raw.max_cache_size {
                        Some(n) => n,
                        None => 52428800,
                    }
                    &&& r->Ok_0.port == match raw.port {
                        Some(p) => p,
                        None => 8080,
                    }
                    &&& r->Ok_0.redirects == raw.redirects
                    &&& r->Ok_0.menu == raw.menu
                    &&& r->Ok_0.cache_control == raw.cache_control
                },
            },
    {
        let log_level = match &raw.log_level {
            Some(name) => match parse_log_level(name.as_str()) {
                Some(level) => level,
                None => {
                    return Err(
                        ChimeraError::TomlError(concat2("unknown log level: ", name.as_str())),
                    );
                },
            },
            None => default_log_level(),
        };
        Ok(
            TomlConfig {
                chimera_root: or_default(raw.chimera_root, default_chimera_root()),
                site_title: or_default(raw.site_title, default_site_title()),
                index_file: or_default(raw.index_file, default_index_file()),
                highlight_style: or_default(raw.highlight_style, default_highlight_style()),
                site_lang: or_default(raw.site_lang, default_site_lang()),
                image_size_file: raw.image_size_file,
                generate_index: match raw.generate_index {
                    Some(b) => b,
                    None => false,
                },
                log_level,
                max_cache_size: match raw.max_cache_size {
                    Some(n) => n,
                    None => default_max_cache_size(),
                },
                port: match raw.port {
                    Some(p) => p,
                    None => default_port(),
                },
                redirects: raw.redirects,
                menu: raw.menu,
                cache_control: raw.cache_control,
            },
        )
    }

    /// The level that the logging framework is set to.
    pub fn tracing_level(&self) -> (r: TracingLevel)
        ensures
            r == match self.log_level {
                LogLevel::Trace => TracingLevel::TRACE,
                LogLevel::Debug => TracingLevel::DEBUG,
                LogLevel::Info => TracingLevel::INFO,
                LogLevel::Warning => TracingLevel::WARN,
                LogLevel::Error => TracingLevel::ERROR,
            },
    {
        match self.log_level {
            LogLevel::Trace => TracingLevel::TRACE,
            LogLevel::Debug => TracingLevel::DEBUG,
            LogLevel::Info => TracingLevel::INFO,
            LogLevel::Warning => TracingLevel::WARN,
            LogLevel::Error => TracingLevel::ERROR,
        }
    }
}

} // verus!
