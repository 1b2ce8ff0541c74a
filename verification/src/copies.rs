//! Second values with the same content: the parts of a directive are
//! copied piece by piece, and each copy is as the value it was made from.

use vstd::prelude::*;
use crate::ast::{
    option_view, patterns_view, seq_view, AccessLog, AccessLogOptions, AddHeader, Address,
    ErrorPage, Expires, IfCondition, Listen, LocationPattern, MapBlock, MapPattern,
    ProxyCacheValid, Return, Rewrite, ServerName, TryFiles, TryFilesLastOption,
};
use crate::value::Value;

verus! {

/// A second text with the same characters.
pub fn copy_text(s: &String) -> (r: String)
    ensures
        r@ == s@,
{
    s.clone()
}

/// A second list with the same elements.
pub fn copy_plain<T: Copy>(v: &Vec<T>) -> (r: Vec<T>)
    ensures
        r@ == v@,
{
    let mut out: Vec<T> = Vec::new();
    let mut i: usize = 0;
    while i < v.len()
        invariant
            i <= v.len(),
            out@ =~= v@.take(i as int),
        decreases v.len() - i,
    {
        out.push(v[i]);
        i += 1;
    }
    assert(v@.take(v.len() as int) =~= v@);
    out
}

/// A second list with copies of the texts of `v`.
pub fn copy_texts(v: &Vec<String>) -> (r: Vec<String>)
    ensures
        seq_view(r@) == seq_view(v@),
{
    let mut out: Vec<String> = Vec::new();
    let mut i: usize = 0;
    while i < v.len()
        invariant
            i <= v.len(),
            out@.len() == i,
            forall|k: int| 0 <= k < i ==> (#[trigger] out@[k])@ == v@[k]@,
        decreases v.len() - i,
    {
        out.push(copy_text(&v[i]));
        i += 1;
    }
    assert(seq_view(out@) =~= seq_view(v@));
    out
}

/// A second list with copies of the values of `v`.
pub fn copy_values(v: &Vec<Value>) -> (r: Vec<Value>)
    ensures
        seq_view(r@) == seq_view(v@),
{
    let mut out: Vec<Value> = Vec::new();
    let mut i: usize = 0;
    while i < v.len()
        invariant
            i <= v.len(),
            out@.len() == i,
            forall|k: int| 0 <= k < i ==> (#[trigger] out@[k])@ == v@[k]@,
        decreases v.len() - i,
    {
        out.push(v[i].copy());
        i += 1;
    }
    assert(seq_view(out@) =~= seq_view(v@));
    out
}

/// A second list with copies of the names of `v`.
pub fn copy_names(v: &Vec<ServerName>) -> (r: Vec<ServerName>)
    ensures
        seq_view(r@) == seq_view(v@),
{
    let mut out: Vec<ServerName> = Vec::new();
    let mut i: usize = 0;
    while i < v.len()
        invariant
            i <= v.len(),
            out@.len() == i,
            forall|k: int| 0 <= k < i ==> (#[trigger] out@[k])@ == v@[k]@,
        decreases v.len() - i,
    {
        out.push(v[i].copy());
        i += 1;
    }
    assert(seq_view(out@) =~= seq_view(v@));
    out
}

/// A second list with copies of the patterns of `v` and of their values.
pub fn copy_patterns(v: &Vec<(MapPattern, Value)>) -> (r: Vec<(MapPattern, Value)>)
    ensures
        patterns_view(r@) == patterns_view(v@),
{
    let mut out: Vec<(MapPattern, Value)> = Vec::new();
    let mut i: usize = 0;
    while i < v.len()
        invariant
            i <= v.len(),
            out@.len() == i,
            forall|k: int|
                0 <= k < i ==> (#[trigger] out@[k]).0@ == v@[k].0@ && out@[k].1@ == v@[k].1@,
        decreases v.len() - i,
    {
        let pattern = v[i].0.copy();
        let value = v[i].1.copy();
        out.push((pattern, value));
        i += 1;
    }
    assert(patterns_view(out@) =~= patterns_view(v@));
    out
}

/// A copy of the value that `o` holds, if it holds one.
pub fn copy_value_option(o: &Option<Value>) -> (r: Option<Value>)
    ensures
        option_view(r) == option_view(*o),
{
    match o {
        Some(v) => Some(v.copy()),
        None => None,
    }
}

/// A copy of the text that `o` holds, if it holds one.
pub fn copy_text_option(o: &Option<String>) -> (r: Option<String>)
    ensures
        option_view(r) == option_view(*o),
{
    match o {
        Some(s) => Some(copy_text(s)),
        None => None,
    }
}

impl IfCondition {
    /// A second value with the same content.
    pub fn copy(&self) -> (r: IfCondition)
        ensures
            r@ == self@,
    {
        match self {
            IfCondition::NonEmpty(a) => IfCondition::NonEmpty(a.copy()),
            IfCondition::Eq(a, b) => IfCondition::Eq(a.copy(), copy_text(b)),
            IfCondition::Neq(a, b) => IfCondition::Neq(a.copy(), copy_text(b)),
            IfCondition::RegEq(a, b, c) => IfCondition::RegEq(a.copy(), copy_text(b), *c),
            IfCondition::RegNeq(a, b, c) => IfCondition::RegNeq(a.copy(), copy_text(b), *c),
            IfCondition::Exists(a) => IfCondition::Exists(a.copy()),
            IfCondition::NotExists(a) => IfCondition::NotExists(a.copy()),
            IfCondition::FileExists(a) => IfCondition::FileExists(a.copy()),
            IfCondition::FileNotExists(a) => IfCondition::FileNotExists(a.copy()),
            IfCondition::DirExists(a) => IfCondition::DirExists(a.copy()),
            IfCondition::DirNotExists(a) => IfCondition::DirNotExists(a.copy()),
            IfCondition::Executable(a) => IfCondition::Executable(a.copy()),
            IfCondition::NotExecutable(a) => IfCondition::NotExecutable(a.copy()),
        }
    }
}

impl Address {
    /// A second value with the same content.
    pub fn copy(&self) -> (r: Address)
        ensures
            r@ == self@,
    {
        match self {
            Address::Ip(a) => Address::Ip(*a),
            Address::StarPort(a) => Address::StarPort(*a),
            Address::Port(a) => Address::Port(*a),
            Address::Unix(a) => Address::Unix(copy_text(a)),
        }
    }
}

impl Listen {
    /// A second value with the same content.
    pub fn copy(&self) -> (r: Listen)
        ensures
            r@ == self@,
    {
        Listen {
            address: self.address.copy(),
            default_server: self.default_server,
            ssl: self.ssl,
            ext: self.ext,
            proxy_protocol: self.proxy_protocol,
            setfib: self.setfib,
            fastopen: self.fastopen,
            backlog: self.backlog,
            rcvbuf: self.rcvbuf,
            sndbuf: self.sndbuf,
            deferred: self.deferred,
            bind: self.bind,
            ipv6only: self.ipv6only,
            reuseport: self.reuseport,
        }
    }
}

impl LocationPattern {
    /// A second value with the same content.
    pub fn copy(&self) -> (r: LocationPattern)
        ensures
            r@ == self@,
    {
        match self {
            LocationPattern::Prefix(a) => LocationPattern::Prefix(copy_text(a)),
            LocationPattern::Exact(a) => LocationPattern::Exact(copy_text(a)),
            LocationPattern::FinalPrefix(a) => LocationPattern::FinalPrefix(copy_text(a)),
            LocationPattern::Regex(a) => LocationPattern::Regex(copy_text(a)),
            LocationPattern::RegexInsensitive(a) => LocationPattern::RegexInsensitive(copy_text(a)),
            LocationPattern::Named(a) => LocationPattern::Named(copy_text(a)),
        }
    }
}

impl AddHeader {
    /// A second value with the same content.
    pub fn copy(&self) -> (r: AddHeader)
        ensures
            r@ == self@,
    {
        AddHeader {
            field: self.field.copy(),
            value: self.value.copy(),
            always: self.always,
        }
    }
}

impl ServerName {
    /// A second value with the same content.
    pub fn copy(&self) -> (r: ServerName)
        ensures
            r@ == self@,
    {
        match self {
            ServerName::Exact(a) => ServerName::Exact(copy_text(a)),
            ServerName::Suffix(a) => ServerName::Suffix(copy_text(a)),
            ServerName::StarSuffix(a) => ServerName::StarSuffix(copy_text(a)),
            ServerName::StarPrefix(a) => ServerName::StarPrefix(copy_text(a)),
            ServerName::Regex(a) => ServerName::Regex(copy_text(a)),
        }
    }
}

impl MapPattern {
    /// A second value with the same content.
    pub fn copy(&self) -> (r: MapPattern)
        ensures
            r@ == self@,
    {
        match self {
            MapPattern::Exact(a) => MapPattern::Exact(copy_text(a)),
            MapPattern::Suffix(a) => MapPattern::Suffix(copy_text(a)),
            MapPattern::StarSuffix(a) => MapPattern::StarSuffix(copy_text(a)),
            MapPattern::StarPrefix(a) => MapPattern::StarPrefix(copy_text(a)),
            MapPattern::Regex(a) => MapPattern::Regex(copy_text(a)),
        }
    }
}

impl MapBlock {
    /// A second value with the same content.
    pub fn copy(&self) -> (r: MapBlock)
        ensures
            r@ == self@,
    {
        MapBlock {
            variable: copy_text(&self.variable),
            expression: self.expression.copy(),
            default: copy_value_option(&self.default),
            hostnames: self.hostnames,
            volatile: self.volatile,
            includes: copy_texts(&self.includes),
            patterns: copy_patterns(&self.patterns),
        }
    }
}

impl ErrorPage {
    /// A second value with the same content.
    pub fn copy(&self) -> (r: ErrorPage)
        ensures
            r@ == self@,
    {
        ErrorPage {
            codes: copy_plain(&self.codes),
            response_code: self.response_code,
            uri: self.uri.copy(),
        }
    }
}

impl Return {
    /// A second value with the same content.
    pub fn copy(&self) -> (r: Return)
        ensures
            r@ == self@,
    {
        match self {
            Return::Redirect { code, url } => Return::Redirect { code: *code, url: url.copy() },
            Return::Text { code, text } => Return::Text { code: *code, text: copy_value_option(text) },
        }
    }
}

impl Rewrite {
    /// A second value with the same content.
    pub fn copy(&self) -> (r: Rewrite)
        ensures
            r@ == self@,
    {
        Rewrite {
            regex: copy_text(&self.regex),
            replacement: self.replacement.copy(),
            flag: self.flag,
        }
    }
}

impl TryFilesLastOption {
    /// A second value with the same content.
    pub fn copy(&self) -> (r: TryFilesLastOption)
        ensures
            r@ == self@,
    {
        match self {
            TryFilesLastOption::Uri(a) => TryFilesLastOption::Uri(a.copy()),
            TryFilesLastOption::NamedLocation(a) => TryFilesLastOption::NamedLocation(copy_text(a)),
            TryFilesLastOption::Code(a) => TryFilesLastOption::Code(*a),
        }
    }
}

impl TryFiles {
    /// A second value with the same content.
    pub fn copy(&self) -> (r: TryFiles)
        ensures
            r@ == self@,
    {
        TryFiles {
            options: copy_values(&self.options),
            last_option: self.last_option.copy(),
        }
    }
}

impl Expires {
    /// A second value with the same content.
    pub fn copy(&self) -> (r: Expires)
        ensures
            r@ == self@,
    {
        Expires {
            modified: self.modified,
            value: self.value.copy(),
        }
    }
}

impl ProxyCacheValid {
    /// A second value with the same content.
    pub fn copy(&self) -> (r: ProxyCacheValid)
        ensures
            r@ == self@,
    {
        match self {
            ProxyCacheValid::Normal(a) => ProxyCacheValid::Normal(a.copy()),
            ProxyCacheValid::Specific(a, b) => ProxyCacheValid::Specific(copy_plain(a), b.copy()),
            ProxyCacheValid::Any(a) => ProxyCacheValid::Any(a.copy()),
        }
    }
}

impl AccessLogOptions {
    /// A second value with the same content.
    pub fn copy(&self) -> (r: AccessLogOptions)
        ensures
            r@ == self@,
    {
        AccessLogOptions {
            path: self.path.copy(),
            format: copy_text_option(&self.format),
            buffer: copy_text_option(&self.buffer),
            gzip: self.gzip,
            flush: copy_text_option(&self.flush),
            condition: copy_value_option(&self.condition),
        }
    }
}

impl AccessLog {
    /// A second value with the same content.
    pub fn copy(&self) -> (r: AccessLog)
        ensures
            r@ == self@,
    {
        match self {
            AccessLog::Off => AccessLog::Off,
            AccessLog::On(a) => AccessLog::On(a.copy()),
        }
    }
}

} // verus!
