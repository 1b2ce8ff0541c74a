//! Abstract syntax tree types.
//!
//! Each type that holds text or other directives has a view: the same value
//! with sequences in place of strings and vectors. The contracts of the
//! parser and of the formatter speak of the views.

use vstd::prelude::*;
use crate::copies::{
    copy_names, copy_plain, copy_text, copy_texts, copy_value_option, copy_values,
};
use crate::net::{IpAddress, SocketAddress};
use crate::position::{Pos, Span};
use crate::value::{Value, ValueView};

verus! {

/// The views of the elements of `s`, in order.
pub open spec fn seq_view<T: View>(s: Seq<T>) -> Seq<T::V> {
    s.map_values(|x: T| x@)
}

/// The view of what `o` holds, if it holds anything.
pub open spec fn option_view<T: View>(o: Option<T>) -> Option<T::V> {
    match o {
        Some(x) => Some(x@),
        None => None,
    }
}

/// The views of the patterns of a `map` block with their values.
pub open spec fn patterns_view(s: Seq<(MapPattern, Value)>) -> Seq<(MapPatternView, ValueView)> {
    s.map_values(|p: (MapPattern, Value)| (p.0@, p.1@))
}

/// The view of a list with one more element is the view of the list with
/// the view of the element added.
pub proof fn lemma_seq_view_push<T: View>(s: Seq<T>, x: T)
    ensures
        seq_view(s.push(x)) == seq_view(s).push(x@),
{
    assert(seq_view(s.push(x)) =~= seq_view(s).push(x@));
}

/// The same for the patterns of a `map` block.
pub proof fn lemma_patterns_view_push(s: Seq<(MapPattern, Value)>, x: (MapPattern, Value))
    ensures
        patterns_view(s.push(x)) == patterns_view(s).push((x.0@, x.1@)),
{
    assert(patterns_view(s.push(x)) =~= patterns_view(s).push((x.0@, x.1@)));
}

/// The views of the directives of `s`, in order.
pub open spec fn directives_view(s: Seq<Directive>) -> Seq<DirectiveView>
    decreases s,
{
    if s.len() == 0 {
        Seq::empty()
    } else {
        directives_view(s.drop_last()).push(s.last()@)
    }
}

/// The view of a list of directives has the view of each directive at the
/// place of that directive.
pub proof fn lemma_directives_view(s: Seq<Directive>)
    ensures
        directives_view(s).len() == s.len(),
        forall|i: int| 0 <= i < s.len() ==> directives_view(s)[i] == #[trigger] s[i]@,
    decreases s.len(),
{
    if s.len() > 0 {
        lemma_directives_view(s.drop_last());
        assert(directives_view(s) == directives_view(s.drop_last()).push(s.last()@));
        assert forall|i: int| 0 <= i < s.len() implies directives_view(s)[i] == #[trigger] s[i]@ by {
            if i < s.len() - 1 {
                assert(s.drop_last()[i] == s[i]);
            }
        }
    } else {
        assert(directives_view(s) == Seq::<DirectiveView>::empty());
    }
}

/// The view of a list with one more directive.
pub proof fn lemma_directives_view_push(s: Seq<Directive>, d: Directive)
    ensures
        directives_view(s.push(d)) == directives_view(s).push(d@),
{
    assert(s.push(d).drop_last() =~= s);
    assert(s.push(d).last() == d);
}

/// The whole configuration.
#[derive(Debug, PartialEq, Eq)]
pub struct Main {
    pub directives: Vec<Directive>,
}

/// `Main` as a mathematical value.
pub struct MainView {
    pub directives: Seq<DirectiveView>,
}

impl View for Main {
    type V = MainView;

    open spec fn view(&self) -> MainView {
        MainView { directives: directives_view(self.directives@) }
    }
}

/// One directive and the position at which it was found.
#[derive(Debug, PartialEq, Eq)]
pub struct Directive {
    pub position: Pos,
    pub item: Item,
}

/// `Directive` as a mathematical value.
pub struct DirectiveView {
    pub position: Pos,
    pub item: ItemView,
}

impl View for Directive {
    type V = DirectiveView;

    open spec fn view(&self) -> DirectiveView
        decreases self,
    {
        DirectiveView {
            position: self.position,
            item: self.item@,
        }
    }
}

#[derive(Debug, Clone, Copy, PartialEq, Eq, Structural)]
pub enum WorkerProcesses {
    Auto,
    Exact(u32),
}

#[derive(Debug, PartialEq, Eq)]
pub struct Http {
    pub position: Span,
    pub directives: Vec<Directive>,
}

/// A block of directives as a mathematical value.
pub struct BlockView {
    pub position: Span,
    pub directives: Seq<DirectiveView>,
}

impl View for Http {
    type V = BlockView;

    open spec fn view(&self) -> BlockView
        decreases self,
    {
        BlockView {
            position: self.position,
            directives: directives_view(self.directives@),
        }
    }
}

#[derive(Debug, PartialEq, Eq)]
pub struct Server {
    pub position: Span,
    pub directives: Vec<Directive>,
}

impl View for Server {
    type V = BlockView;

    open spec fn view(&self) -> BlockView
        decreases self,
    {
        BlockView {
            position: self.position,
            directives: directives_view(self.directives@),
        }
    }
}

#[derive(Debug, Clone, PartialEq, Eq)]
pub enum IfCondition {
    NonEmpty(Value),
    Eq(Value, String),
    Neq(Value, String),
    RegEq(Value, String, bool),
    RegNeq(Value, String, bool),
    Exists(Value),
    NotExists(Value),
    FileExists(Value),
    FileNotExists(Value),
    DirExists(Value),
    DirNotExists(Value),
    Executable(Value),
    NotExecutable(Value),
}

/// `IfCondition` as a mathematical value.
pub enum IfConditionView {
    NonEmpty(ValueView),
    Eq(ValueView, Seq<char>),
    Neq(ValueView, Seq<char>),
    RegEq(ValueView, Seq<char>, bool),
    RegNeq(ValueView, Seq<char>, bool),
    Exists(ValueView),
    NotExists(ValueView),
    FileExists(ValueView),
    FileNotExists(ValueView),
    DirExists(ValueView),
    DirNotExists(ValueView),
    Executable(ValueView),
    NotExecutable(ValueView),
}

impl View for IfCondition {
    type V = IfConditionView;

    open spec fn view(&self) -> IfConditionView {
        match self {
            IfCondition::NonEmpty(a) => IfConditionView::NonEmpty(a@),
            IfCondition::Eq(a, b) => IfConditionView::Eq(a@, b@),
            IfCondition::Neq(a, b) => IfConditionView::Neq(a@, b@),
            IfCondition::RegEq(a, b, c) => IfConditionView::RegEq(a@, b@, *c),
            IfCondition::RegNeq(a, b, c) => IfConditionView::RegNeq(a@, b@, *c),
            IfCondition::Exists(a) => IfConditionView::Exists(a@),
            IfCondition::NotExists(a) => IfConditionView::NotExists(a@),
            IfCondition::FileExists(a) => IfConditionView::FileExists(a@),
            IfCondition::FileNotExists(a) => IfConditionView::FileNotExists(a@),
            IfCondition::DirExists(a) => IfConditionView::DirExists(a@),
            IfCondition::DirNotExists(a) => IfConditionView::DirNotExists(a@),
            IfCondition::Executable(a) => IfConditionView::Executable(a@),
            IfCondition::NotExecutable(a) => IfConditionView::NotExecutable(a@),
        }
    }
}

#[derive(Debug, PartialEq, Eq)]
pub struct If {
    pub position: Span,
    pub condition: IfCondition,
    pub directives: Vec<Directive>,
}

/// `If` as a mathematical value.
pub struct IfView {
    pub position: Span,
    pub condition: IfConditionView,
    pub directives: Seq<DirectiveView>,
}

impl View for If {
    type V = IfView;

    open spec fn view(&self) -> IfView
        decreases self,
    {
        IfView {
            position: self.position,
            condition: self.condition@,
            directives: directives_view(self.directives@),
        }
    }
}

#[derive(Debug, Clone, PartialEq, Eq)]
pub enum Address {
    Ip(SocketAddress),
    StarPort(u16),
    Port(u16),
    Unix(String),
}

/// `Address` as a mathematical value.
pub enum AddressView {
    Ip(SocketAddress),
    StarPort(u16),
    Port(u16),
    Unix(Seq<char>),
}

impl View for Address {
    type V = AddressView;

    open spec fn view(&self) -> AddressView {
        match self {
            Address::Ip(a) => AddressView::Ip(*a),
            Address::StarPort(a) => AddressView::StarPort(*a),
            Address::Port(a) => AddressView::Port(*a),
            Address::Unix(a) => AddressView::Unix(a@),
        }
    }
}

#[derive(Debug, Clone, Copy, PartialEq, Eq, Structural)]
pub enum HttpExt {
    Http2,
    Spdy,
}

#[derive(Debug, Clone, PartialEq, Eq)]
pub struct Listen {
    pub address: Address,
    pub default_server: bool,
    pub ssl: bool,
    pub ext: Option<HttpExt>,
    pub proxy_protocol: bool,
    pub setfib: Option<i32>,
    pub fastopen: Option<u32>,
    pub backlog: Option<i32>,
    pub rcvbuf: Option<u64>,
    pub sndbuf: Option<u64>,
    pub deferred: bool,
    pub bind: bool,
    pub ipv6only: Option<bool>,
    pub reuseport: bool,
}

/// `Listen` as a mathematical value.
pub struct ListenView {
    pub address: AddressView,
    pub default_server: bool,
    pub ssl: bool,
    pub ext: Option<HttpExt>,
    pub proxy_protocol: bool,
    pub setfib: Option<i32>,
    pub fastopen: Option<u32>,
    pub backlog: Option<i32>,
    pub rcvbuf: Option<u64>,
    pub sndbuf: Option<u64>,
    pub deferred: bool,
    pub bind: bool,
    pub ipv6only: Option<bool>,
    pub reuseport: bool,
}

impl View for Listen {
    type V = ListenView;

    open spec fn view(&self) -> ListenView {
        ListenView {
            address: self.address@,
            default_server: self.default_server,
            ssl: self.ssl,
            ext: self.ext,
            proxy_protocol: self.proxy_protocol,
            setfib: self.setfib,
            fastopen: self.fastopen,
            backlog: self.backlog,
            rcvbuf: self.rcvbuf,
            sndbuf: self.sndbuf,
            deferred: self.deferred,
            bind: self.bind,
            ipv6only: self.ipv6only,
            reuseport: self.reuseport,
        }
    }
}

#[derive(Debug, Clone, PartialEq, Eq)]
pub enum LocationPattern {
    Prefix(String),
    Exact(String),
    FinalPrefix(String),
    Regex(String),
    RegexInsensitive(String),
    Named(String),
}

/// `LocationPattern` as a mathematical value.
pub enum LocationPatternView {
    Prefix(Seq<char>),
    Exact(Seq<char>),
    FinalPrefix(Seq<char>),
    Regex(Seq<char>),
    RegexInsensitive(Seq<char>),
    Named(Seq<char>),
}

impl View for LocationPattern {
    type V = LocationPatternView;

    open spec fn view(&self) -> LocationPatternView {
        match self {
            LocationPattern::Prefix(a) => LocationPatternView::Prefix(a@),
            LocationPattern::Exact(a) => LocationPatternView::Exact(a@),
            LocationPattern::FinalPrefix(a) => LocationPatternView::FinalPrefix(a@),
            LocationPattern::Regex(a) => LocationPatternView::Regex(a@),
            LocationPattern::RegexInsensitive(a) => LocationPatternView::RegexInsensitive(a@),
            LocationPattern::Named(a) => LocationPatternView::Named(a@),
        }
    }
}

#[derive(Debug, PartialEq, Eq)]
pub struct Location {
    pub position: Span,
    pub pattern: LocationPattern,
    pub directives: Vec<Directive>,
}

/// `Location` as a mathematical value.
pub struct LocationView {
    pub position: Span,
    pub pattern: LocationPatternView,
    pub directives: Seq<DirectiveView>,
}

impl View for Location {
    type V = LocationView;

    open spec fn view(&self) -> LocationView
        decreases self,
    {
        LocationView {
            position: self.position,
            pattern: self.pattern@,
            directives: directives_view(self.directives@),
        }
    }
}

#[derive(Debug, PartialEq, Eq)]
pub struct LimitExcept {
    pub position: Span,
    pub methods: Vec<String>,
    pub directives: Vec<Directive>,
}

/// `LimitExcept` as a mathematical value.
pub struct LimitExceptView {
    pub position: Span,
    pub methods: Seq<Seq<char>>,
    pub directives: Seq<DirectiveView>,
}

impl View for LimitExcept {
    type V = LimitExceptView;

    open spec fn view(&self) -> LimitExceptView
        decreases self,
    {
        LimitExceptView {
            position: self.position,
            methods: seq_view(self.methods@),
            directives: directives_view(self.directives@),
        }
    }
}

#[derive(Debug, Clone, Copy, PartialEq, Eq, Structural)]
pub enum GzipStatic {
    On,
    Off,
    Always,
}

#[derive(Debug, Clone, Copy, PartialEq, Eq, Structural)]
pub enum GzipProxied {
    Off,
    Expired,
    NoCache,
    NoStore,
    Private,
    NoLastModified,
    NoEtag,
    Auth,
    Any,
}

#[derive(Debug, Clone, PartialEq, Eq)]
pub struct AddHeader {
    pub field: Value,
    pub value: Value,
    pub always: bool,
}

/// `AddHeader` as a mathematical value.
pub struct AddHeaderView {
    pub field: ValueView,
    pub value: ValueView,
    pub always: bool,
}

impl View for AddHeader {
    type V = AddHeaderView;

    open spec fn view(&self) -> AddHeaderView {
        AddHeaderView {
            field: self.field@,
            value: self.value@,
            always: self.always,
        }
    }
}

#[derive(Debug, Clone, PartialEq, Eq)]
pub enum ServerName {
    Exact(String),
    Suffix(String),
    StarSuffix(String),
    StarPrefix(String),
    Regex(String),
}

/// `ServerName` as a mathematical value.
pub enum ServerNameView {
    Exact(Seq<char>),
    Suffix(Seq<char>),
    StarSuffix(Seq<char>),
    StarPrefix(Seq<char>),
    Regex(Seq<char>),
}

impl View for ServerName {
    type V = ServerNameView;

    open spec fn view(&self) -> ServerNameView {
        match self {
            ServerName::Exact(a) => ServerNameView::Exact(a@),
            ServerName::Suffix(a) => ServerNameView::Suffix(a@),
            ServerName::StarSuffix(a) => ServerNameView::StarSuffix(a@),
            ServerName::StarPrefix(a) => ServerNameView::StarPrefix(a@),
            ServerName::Regex(a) => ServerNameView::Regex(a@),
        }
    }
}

#[derive(Debug, Clone, PartialEq, Eq)]
pub enum MapPattern {
    Exact(String),
    Suffix(String),
    StarSuffix(String),
    StarPrefix(String),
    Regex(String),
}

/// `MapPattern` as a mathematical value.
pub enum MapPatternView {
    Exact(Seq<char>),
    Suffix(Seq<char>),
    StarSuffix(Seq<char>),
    StarPrefix(Seq<char>),
    Regex(Seq<char>),
}

impl View for MapPattern {
    type V = MapPatternView;

    open spec fn view(&self) -> MapPatternView {
        match self {
            MapPattern::Exact(a) => MapPatternView::Exact(a@),
            MapPattern::Suffix(a) => MapPatternView::Suffix(a@),
            MapPattern::StarSuffix(a) => MapPatternView::StarSuffix(a@),
            MapPattern::StarPrefix(a) => MapPatternView::StarPrefix(a@),
            MapPattern::Regex(a) => MapPatternView::Regex(a@),
        }
    }
}

#[derive(Debug, Clone, PartialEq, Eq)]
pub struct MapBlock {
    pub variable: String,
    pub expression: Value,
    pub default: Option<Value>,
    pub hostnames: bool,
    pub volatile: bool,
    pub includes: Vec<String>,
    pub patterns: Vec<(MapPattern, Value)>,
}

/// `MapBlock` as a mathematical value.
pub struct MapBlockView {
    pub variable: Seq<char>,
    pub expression: ValueView,
    pub default: Option<ValueView>,
    pub hostnames: bool,
    pub volatile: bool,
    pub includes: Seq<Seq<char>>,
    pub patterns: Seq<(MapPatternView, ValueView)>,
}

impl View for MapBlock {
    type V = MapBlockView;

    open spec fn view(&self) -> MapBlockView {
        MapBlockView {
            variable: self.variable@,
            expression: self.expression@,
            default: option_view(self.default),
            hostnames: self.hostnames,
            volatile: self.volatile,
            includes: seq_view(self.includes@),
            patterns: patterns_view(self.patterns@),
        }
    }
}

#[derive(Debug, Clone, Copy, PartialEq, Eq, Structural)]
pub enum ErrorPageResponse {
    /// The response code of a target uri.
    Target,
    /// Replace with a specified value.
    Replace(u32),
    /// Replace with a specified redirect (`=` with codes 301, 302, 303, 307, 308).
    Redirect(u32),
    /// The code that the page answers with itself (bare `=`).
    Keep,
}

#[derive(Debug, Clone, PartialEq, Eq)]
pub struct ErrorPage {
    pub codes: Vec<u32>,
    pub response_code: ErrorPageResponse,
    pub uri: Value,
}

/// `ErrorPage` as a mathematical value.
pub struct ErrorPageView {
    pub codes: Seq<u32>,
    pub response_code: ErrorPageResponse,
    pub uri: ValueView,
}

impl View for ErrorPage {
    type V = ErrorPageView;

    open spec fn view(&self) -> ErrorPageView {
        ErrorPageView {
            codes: self.codes@,
            response_code: self.response_code,
            uri: self.uri@,
        }
    }
}

#[derive(Debug, Clone, PartialEq, Eq)]
pub enum Return {
    Redirect { code: Option<u32>, url: Value },
    Text { code: u32, text: Option<Value> },
}

/// `Return` as a mathematical value.
pub enum ReturnView {
    Redirect { code: Option<u32>, url: ValueView },
    Text { code: u32, text: Option<ValueView> },
}

impl View for Return {
    type V = ReturnView;

    open spec fn view(&self) -> ReturnView {
        match self {
            Return::Redirect { code, url } => ReturnView::Redirect {
                code: *code,
                url: url@,
            },
            Return::Text { code, text } => ReturnView::Text {
                code: *code,
                text: option_view(*text),
            },
        }
    }
}

#[derive(Debug, Clone, Copy, PartialEq, Eq, Structural)]
pub enum RewriteFlag {
    Last,
    Break,
    Redirect,
    Permanent,
}

#[derive(Debug, Clone, PartialEq, Eq)]
pub struct Rewrite {
    pub regex: String,
    pub replacement: Value,
    pub flag: Option<RewriteFlag>,
}

/// `Rewrite` as a mathematical value.
pub struct RewriteView {
    pub regex: Seq<char>,
    pub replacement: ValueView,
    pub flag: Option<RewriteFlag>,
}

impl View for Rewrite {
    type V = RewriteView;

    open spec fn view(&self) -> RewriteView {
        RewriteView {
            regex: self.regex@,
            replacement: self.replacement@,
            flag: self.flag,
        }
    }
}

#[derive(Debug, Clone, PartialEq, Eq)]
pub enum TryFilesLastOption {
    Uri(Value),
    NamedLocation(String),
    Code(u32),
}

/// `TryFilesLastOption` as a mathematical value.
pub enum TryFilesLastOptionView {
    Uri(ValueView),
    NamedLocation(Seq<char>),
    Code(u32),
}

impl View for TryFilesLastOption {
    type V = TryFilesLastOptionView;

    open spec fn view(&self) -> TryFilesLastOptionView {
        match self {
            TryFilesLastOption::Uri(a) => TryFilesLastOptionView::Uri(a@),
            TryFilesLastOption::NamedLocation(a) => TryFilesLastOptionView::NamedLocation(a@),
            TryFilesLastOption::Code(a) => TryFilesLastOptionView::Code(*a),
        }
    }
}

#[derive(Debug, Clone, PartialEq, Eq)]
pub struct TryFiles {
    pub options: Vec<Value>,
    pub last_option: TryFilesLastOption,
}

/// `TryFiles` as a mathematical value.
pub struct TryFilesView {
    pub options: Seq<ValueView>,
    pub last_option: TryFilesLastOptionView,
}

impl View for TryFiles {
    type V = TryFilesView;

    open spec fn view(&self) -> TryFilesView {
        TryFilesView {
            options: seq_view(self.options@),
            last_option: self.last_option@,
        }
    }
}

#[derive(Debug, Clone, PartialEq, Eq)]
pub struct Expires {
    pub modified: bool,
    pub value: Value,
}

/// `Expires` as a mathematical value.
pub struct ExpiresView {
    pub modified: bool,
    pub value: ValueView,
}

impl View for Expires {
    type V = ExpiresView;

    open spec fn view(&self) -> ExpiresView {
        ExpiresView {
            modified: self.modified,
            value: self.value@,
        }
    }
}

#[derive(Debug, Clone, Copy, PartialEq, Eq, Structural)]
pub enum Source {
    All,
    Unix,
    Ip(IpAddress),
    Network(IpAddress, u8),
}

#[derive(Debug, Clone, Copy, PartialEq, Eq, Structural)]
pub enum RealIpFrom {
    Unix,
    Ip(IpAddress),
    Network(IpAddress, u8),
}

#[derive(Debug, Clone, Copy, PartialEq, Eq, Structural)]
pub enum ErrorLevel {
    Debug,
    Info,
    Notice,
    Warn,
    Error,
    Crit,
    Alert,
    Emerg,
}

#[derive(Debug, Clone, Copy, PartialEq, Eq, Structural)]
pub enum ProxyHttpVersion {
    V1_0,
    V1_1,
}

#[derive(Debug, Clone, PartialEq, Eq)]
pub enum ProxyCacheValid {
    Normal(Value),
    Specific(Vec<u32>, Value),
    Any(Value),
}

/// `ProxyCacheValid` as a mathematical value.
pub enum ProxyCacheValidView {
    Normal(ValueView),
    Specific(Seq<u32>, ValueView),
    Any(ValueView),
}

impl View for ProxyCacheValid {
    type V = ProxyCacheValidView;

    open spec fn view(&self) -> ProxyCacheValidView {
        match self {
            ProxyCacheValid::Normal(a) => ProxyCacheValidView::Normal(a@),
            ProxyCacheValid::Specific(a, b) => ProxyCacheValidView::Specific(a@, b@),
            ProxyCacheValid::Any(a) => ProxyCacheValidView::Any(a@),
        }
    }
}

#[derive(Debug, Clone, Copy, PartialEq, Eq, Structural)]
pub enum ProxyNextUpstreamFlag {
    Error,
    Timeout,
    InvalidHeader,
    Http500,
    Http502,
    Http503,
    Http504,
    Http403,
    Http404,
    Http429,
    NonIdempotent,
    Off,
}

#[derive(Debug, Clone, PartialEq, Eq)]
pub struct AccessLogOptions {
    pub path: Value,
    pub format: Option<String>,
    pub buffer: Option<String>,
    pub gzip: Option<Option<u8>>,
    pub flush: Option<String>,
    pub condition: Option<Value>,
}

/// `AccessLogOptions` as a mathematical value.
pub struct AccessLogOptionsView {
    pub path: ValueView,
    pub format: Option<Seq<char>>,
    pub buffer: Option<Seq<char>>,
    pub gzip: Option<Option<u8>>,
    pub flush: Option<Seq<char>>,
    pub condition: Option<ValueView>,
}

impl View for AccessLogOptions {
    type V = AccessLogOptionsView;

    open spec fn view(&self) -> AccessLogOptionsView {
        AccessLogOptionsView {
            path: self.path@,
            format: option_view(self.format),
            buffer: option_view(self.buffer),
            gzip: self.gzip,
            flush: option_view(self.flush),
            condition: option_view(self.condition),
        }
    }
}

#[derive(Debug, Clone, PartialEq, Eq)]
pub enum AccessLog {
    Off,
    On(AccessLogOptions),
}

/// `AccessLog` as a mathematical value.
pub enum AccessLogView {
    Off,
    On(AccessLogOptionsView),
}

impl View for AccessLog {
    type V = AccessLogView;

    open spec fn view(&self) -> AccessLogView {
        match self {
            AccessLog::Off => AccessLogView::Off,
            AccessLog::On(a) => AccessLogView::On(a@),
        }
    }
}

/// The enum which represents an nginx config directive.
#[derive(Debug, PartialEq, Eq)]
pub enum Item {
    Daemon(bool),
    MasterProcess(bool),
    WorkerProcesses(WorkerProcesses),
    Http(Http),
    Server(Server),
    Location(Location),
    LimitExcept(LimitExcept),
    Listen(Listen),
    ProxyPass(Value),
    ProxySetHeader { field: Value, value: Value },
    ProxyMethod(Value),
    ProxyReadTimeout(Value),
    ProxyConnectTimeout(Value),
    ProxyHideHeader(Value),
    ProxyPassHeader(Value),
    ProxyPassRequestBody(bool),
    ProxyPassRequestHeaders(bool),
    ProxyHttpVersion(ProxyHttpVersion),
    ProxyIgnoreHeaders(Vec<String>),
    ProxyInterceptErrors(bool),
    ProxyBuffering(bool),
    ProxyCache(Value),
    ProxyCacheKey(Value),
    ProxyCacheValid(ProxyCacheValid),
    ProxyNextUpstreamTries(Value),
    ProxyNextUpstreamTimeout(Value),
    ProxyNextUpstream(Vec<ProxyNextUpstreamFlag>),
    Gzip(bool),
    GzipStatic(GzipStatic),
    GzipProxied(Vec<GzipProxied>),
    AddHeader(AddHeader),
    Expires(Expires),
    Root(Value),
    Alias(Value),
    ErrorPage(ErrorPage),
    DefaultType(Value),
    ErrorLog { file: Value, level: Option<ErrorLevel> },
    Rewrite(Rewrite),
    Return(Return),
    If(If),
    TryFiles(TryFiles),
    ServerName(Vec<ServerName>),
    SetVar { variable: String, value: Value },
    MapBlock(MapBlock),
    ClientMaxBodySize(Value),
    Include(Value),
    EmptyGif,
    Internal,
    Etag(bool),
    RecursiveErrorPages(bool),
    ChunkedTransferEncoding(bool),
    KeepaliveTimeout(Value, Option<Value>),
    ServerTokens(Value),
    SslCertificate(Value),
    SslCertificateKey(Value),
    RewriteByLuaFile(Value),
    BalancerByLuaFile(Value),
    AccessByLuaFile(Value),
    HeaderFilterByLuaFile(Value),
    ContentByLuaFile(Value),
    BodyFilterByLuaFile(Value),
    LogByLuaFile(Value),
    LuaNeedRequestBody(Value),
    SslCertificateByLuaFile(Value),
    SslSessionFetchByLuaFile(Value),
    SslSessionStoreByLuaFile(Value),
    Allow(Source),
    Deny(Source),
    AccessLog(AccessLog),
    RealIpHeader(Value),
    RealIpRecursive(bool),
    SetRealIpFrom(RealIpFrom),
    Index(Vec<Value>),
}

/// `Item` as a mathematical value.
pub enum ItemView {
    Daemon(bool),
    MasterProcess(bool),
    WorkerProcesses(WorkerProcesses),
    Http(BlockView),
    Server(BlockView),
    Location(LocationView),
    LimitExcept(LimitExceptView),
    Listen(ListenView),
    ProxyPass(ValueView),
    ProxySetHeader { field: ValueView, value: ValueView },
    ProxyMethod(ValueView),
    ProxyReadTimeout(ValueView),
    ProxyConnectTimeout(ValueView),
    ProxyHideHeader(ValueView),
    ProxyPassHeader(ValueView),
    ProxyPassRequestBody(bool),
    ProxyPassRequestHeaders(bool),
    ProxyHttpVersion(ProxyHttpVersion),
    ProxyIgnoreHeaders(Seq<Seq<char>>),
    ProxyInterceptErrors(bool),
    ProxyBuffering(bool),
    ProxyCache(ValueView),
    ProxyCacheKey(ValueView),
    ProxyCacheValid(ProxyCacheValidView),
    ProxyNextUpstreamTries(ValueView),
    ProxyNextUpstreamTimeout(ValueView),
    ProxyNextUpstream(Seq<ProxyNextUpstreamFlag>),
    Gzip(bool),
    GzipStatic(GzipStatic),
    GzipProxied(Seq<GzipProxied>),
    AddHeader(AddHeaderView),
    Expires(ExpiresView),
    Root(ValueView),
    Alias(ValueView),
    ErrorPage(ErrorPageView),
    DefaultType(ValueView),
    ErrorLog { file: ValueView, level: Option<ErrorLevel> },
    Rewrite(RewriteView),
    Return(ReturnView),
    If(IfView),
    TryFiles(TryFilesView),
    ServerName(Seq<ServerNameView>),
    SetVar { variable: Seq<char>, value: ValueView },
    MapBlock(MapBlockView),
    ClientMaxBodySize(ValueView),
    Include(ValueView),
    EmptyGif,
    Internal,
    Etag(bool),
    RecursiveErrorPages(bool),
    ChunkedTransferEncoding(bool),
    KeepaliveTimeout(ValueView, Option<ValueView>),
    ServerTokens(ValueView),
    SslCertificate(ValueView),
    SslCertificateKey(ValueView),
    RewriteByLuaFile(ValueView),
    BalancerByLuaFile(ValueView),
    AccessByLuaFile(ValueView),
    HeaderFilterByLuaFile(ValueView),
    ContentByLuaFile(ValueView),
    BodyFilterByLuaFile(ValueView),
    LogByLuaFile(ValueView),
    LuaNeedRequestBody(ValueView),
    SslCertificateByLuaFile(ValueView),
    SslSessionFetchByLuaFile(ValueView),
    SslSessionStoreByLuaFile(ValueView),
    Allow(Source),
    Deny(Source),
    AccessLog(AccessLogView),
    RealIpHeader(ValueView),
    RealIpRecursive(bool),
    SetRealIpFrom(RealIpFrom),
    Index(Seq<ValueView>),
}

impl View for Item {
    type V = ItemView;

    open spec fn view(&self) -> ItemView
        decreases self,
    {
        match self {
            Item::Daemon(a) => ItemView::Daemon(*a),
            Item::MasterProcess(a) => ItemView::MasterProcess(*a),
            Item::WorkerProcesses(a) => ItemView::WorkerProcesses(*a),
            Item::Http(a) => ItemView::Http(a@),
            Item::Server(a) => ItemView::Server(a@),
            Item::Location(a) => ItemView::Location(a@),
            Item::LimitExcept(a) => ItemView::LimitExcept(a@),
            Item::Listen(a) => ItemView::Listen(a@),
            Item::ProxyPass(a) => ItemView::ProxyPass(a@),
            Item::ProxySetHeader { field, value } => ItemView::ProxySetHeader {
                field: field@,
                value: value@,
            },
            Item::ProxyMethod(a) => ItemView::ProxyMethod(a@),
            Item::ProxyReadTimeout(a) => ItemView::ProxyReadTimeout(a@),
            Item::ProxyConnectTimeout(a) => ItemView::ProxyConnectTimeout(a@),
            Item::ProxyHideHeader(a) => ItemView::ProxyHideHeader(a@),
            Item::ProxyPassHeader(a) => ItemView::ProxyPassHeader(a@),
            Item::ProxyPassRequestBody(a) => ItemView::ProxyPassRequestBody(*a),
            Item::ProxyPassRequestHeaders(a) => ItemView::ProxyPassRequestHeaders(*a),
            Item::ProxyHttpVersion(a) => ItemView::ProxyHttpVersion(*a),
            Item::ProxyIgnoreHeaders(a) => ItemView::ProxyIgnoreHeaders(seq_view(a@)),
            Item::ProxyInterceptErrors(a) => ItemView::ProxyInterceptErrors(*a),
            Item::ProxyBuffering(a) => ItemView::ProxyBuffering(*a),
            Item::ProxyCache(a) => ItemView::ProxyCache(a@),
            Item::ProxyCacheKey(a) => ItemView::ProxyCacheKey(a@),
            Item::ProxyCacheValid(a) => ItemView::ProxyCacheValid(a@),
            Item::ProxyNextUpstreamTries(a) => ItemView::ProxyNextUpstreamTries(a@),
            Item::ProxyNextUpstreamTimeout(a) => ItemView::ProxyNextUpstreamTimeout(a@),
            Item::ProxyNextUpstream(a) => ItemView::ProxyNextUpstream(a@),
            Item::Gzip(a) => ItemView::Gzip(*a),
            Item::GzipStatic(a) => ItemView::GzipStatic(*a),
            Item::GzipProxied(a) => ItemView::GzipProxied(a@),
            Item::AddHeader(a) => ItemView::AddHeader(a@),
            Item::Expires(a) => ItemView::Expires(a@),
            Item::Root(a) => ItemView::Root(a@),
            Item::Alias(a) => ItemView::Alias(a@),
            Item::ErrorPage(a) => ItemView::ErrorPage(a@),
            Item::DefaultType(a) => ItemView::DefaultType(a@),
            Item::ErrorLog { file, level } => ItemView::ErrorLog {
                file: file@,
                level: *level,
            },
            Item::Rewrite(a) => ItemView::Rewrite(a@),
            Item::Return(a) => ItemView::Return(a@),
            Item::If(a) => ItemView::If(a@),
            Item::TryFiles(a) => ItemView::TryFiles(a@),
            Item::ServerName(a) => ItemView::ServerName(seq_view(a@)),
            Item::SetVar { variable, value } => ItemView::SetVar {
                variable: variable@,
                value: value@,
            },
            Item::MapBlock(a) => ItemView::MapBlock(a@),
            Item::ClientMaxBodySize(a) => ItemView::ClientMaxBodySize(a@),
            Item::Include(a) => ItemView::Include(a@),
            Item::EmptyGif => ItemView::EmptyGif,
            Item::Internal => ItemView::Internal,
            Item::Etag(a) => ItemView::Etag(*a),
            Item::RecursiveErrorPages(a) => ItemView::RecursiveErrorPages(*a),
            Item::ChunkedTransferEncoding(a) => ItemView::ChunkedTransferEncoding(*a),
            Item::KeepaliveTimeout(a, b) => ItemView::KeepaliveTimeout(a@, option_view(*b)),
            Item::ServerTokens(a) => ItemView::ServerTokens(a@),
            Item::SslCertificate(a) => ItemView::SslCertificate(a@),
            Item::SslCertificateKey(a) => ItemView::SslCertificateKey(a@),
            Item::RewriteByLuaFile(a) => ItemView::RewriteByLuaFile(a@),
            Item::BalancerByLuaFile(a) => ItemView::BalancerByLuaFile(a@),
            Item::AccessByLuaFile(a) => ItemView::AccessByLuaFile(a@),
            Item::HeaderFilterByLuaFile(a) => ItemView::HeaderFilterByLuaFile(a@),
            Item::ContentByLuaFile(a) => ItemView::ContentByLuaFile(a@),
            Item::BodyFilterByLuaFile(a) => ItemView::BodyFilterByLuaFile(a@),
            Item::LogByLuaFile(a) => ItemView::LogByLuaFile(a@),
            Item::LuaNeedRequestBody(a) => ItemView::LuaNeedRequestBody(a@),
            Item::SslCertificateByLuaFile(a) => ItemView::SslCertificateByLuaFile(a@),
            Item::SslSessionFetchByLuaFile(a) => ItemView::SslSessionFetchByLuaFile(a@),
            Item::SslSessionStoreByLuaFile(a) => ItemView::SslSessionStoreByLuaFile(a@),
            Item::Allow(a) => ItemView::Allow(*a),
            Item::Deny(a) => ItemView::Deny(*a),
            Item::AccessLog(a) => ItemView::AccessLog(a@),
            Item::RealIpHeader(a) => ItemView::RealIpHeader(a@),
            Item::RealIpRecursive(a) => ItemView::RealIpRecursive(*a),
            Item::SetRealIpFrom(a) => ItemView::SetRealIpFrom(*a),
            Item::Index(a) => ItemView::Index(seq_view(a@)),
        }
    }
}

impl ItemView {
    /// The word that a directive of this kind starts with.
    pub open spec fn directive_name(self) -> Seq<char> {
        match self {
            ItemView::Daemon(..) => "daemon"@,
            ItemView::MasterProcess(..) => "master_process"@,
            ItemView::WorkerProcesses(..) => "worker_processes"@,
            ItemView::Http(..) => "http"@,
            ItemView::Server(..) => "server"@,
            ItemView::Location(..) => "location"@,
            ItemView::LimitExcept(..) => "limit_except"@,
            ItemView::Listen(..) => "listen"@,
            ItemView::ProxyPass(..) => "proxy_pass"@,
            ItemView::ProxySetHeader { .. } => "proxy_set_header"@,
            ItemView::ProxyMethod(..) => "proxy_method"@,
            ItemView::ProxyReadTimeout(..) => "proxy_read_timeout"@,
            ItemView::ProxyConnectTimeout(..) => "proxy_connect_timeout"@,
            ItemView::ProxyHideHeader(..) => "proxy_hide_header"@,
            ItemView::ProxyPassHeader(..) => "proxy_pass_header"@,
            ItemView::ProxyPassRequestBody(..) => "proxy_pass_request_body"@,
            ItemView::ProxyPassRequestHeaders(..) => "proxy_pass_request_headers"@,
            ItemView::ProxyHttpVersion(..) => "proxy_http_version"@,
            ItemView::ProxyIgnoreHeaders(..) => "proxy_ignore_headers"@,
            ItemView::ProxyInterceptErrors(..) => "proxy_intercept_errors"@,
            ItemView::ProxyBuffering(..) => "proxy_buffering"@,
            ItemView::ProxyCache(..) => "proxy_cache"@,
            ItemView::ProxyCacheKey(..) => "proxy_cache_key"@,
            ItemView::ProxyCacheValid(..) => "proxy_cache_valid"@,
            ItemView::ProxyNextUpstreamTries(..) => "proxy_next_upstream_tries"@,
            ItemView::ProxyNextUpstreamTimeout(..) => "proxy_next_upstream_timeout"@,
            ItemView::ProxyNextUpstream(..) => "proxy_next_upstream"@,
            ItemView::Gzip(..) => "gzip"@,
            ItemView::GzipStatic(..) => "gzip_static"@,
            ItemView::GzipProxied(..) => "gzip_proxied"@,
            ItemView::AddHeader(..) => "add_header"@,
            ItemView::Expires(..) => "expires"@,
            ItemView::Root(..) => "root"@,
            ItemView::Alias(..) => "alias"@,
            ItemView::ErrorPage(..) => "error_page"@,
            ItemView::DefaultType(..) => "default_type"@,
            ItemView::ErrorLog { .. } => "error_log"@,
            ItemView::Rewrite(..) => "rewrite"@,
            ItemView::Return(..) => "return"@,
            ItemView::If(..) => "if"@,
            ItemView::TryFiles(..) => "try_files"@,
            ItemView::ServerName(..) => "server_name"@,
            ItemView::SetVar { .. } => "set"@,
            ItemView::MapBlock(..) => "map"@,
            ItemView::ClientMaxBodySize(..) => "client_max_body_size"@,
            ItemView::Include(..) => "include"@,
            ItemView::EmptyGif => "empty_gif"@,
            ItemView::Internal => "internal"@,
            ItemView::Etag(..) => "etag"@,
            ItemView::RecursiveErrorPages(..) => "recursive_error_pages"@,
            ItemView::ChunkedTransferEncoding(..) => "chunked_transfer_encoding"@,
            ItemView::KeepaliveTimeout(..) => "keepalive_timeout"@,
            ItemView::ServerTokens(..) => "server_tokens"@,
            ItemView::SslCertificate(..) => "ssl_certificate"@,
            ItemView::SslCertificateKey(..) => "ssl_certificate_key"@,
            ItemView::RewriteByLuaFile(..) => "rewrite_by_lua_file"@,
            ItemView::BalancerByLuaFile(..) => "balancer_by_lua_file"@,
            ItemView::AccessByLuaFile(..) => "access_by_lua_file"@,
            ItemView::HeaderFilterByLuaFile(..) => "header_filter_by_lua_file"@,
            ItemView::ContentByLuaFile(..) => "content_by_lua_file"@,
            ItemView::BodyFilterByLuaFile(..) => "body_filter_by_lua_file"@,
            ItemView::LogByLuaFile(..) => "log_by_lua_file"@,
            ItemView::LuaNeedRequestBody(..) => "lua_need_request_body"@,
            ItemView::SslCertificateByLuaFile(..) => "ssl_certificate_by_lua_file"@,
            ItemView::SslSessionFetchByLuaFile(..) => "ssl_session_fetch_by_lua_file"@,
            ItemView::SslSessionStoreByLuaFile(..) => "ssl_session_store_by_lua_file"@,
            ItemView::Allow(..) => "allow"@,
            ItemView::Deny(..) => "deny"@,
            ItemView::AccessLog(..) => "access_log"@,
            ItemView::RealIpHeader(..) => "real_ip_header"@,
            ItemView::RealIpRecursive(..) => "real_ip_recursive"@,
            ItemView::SetRealIpFrom(..) => "set_real_ip_from"@,
            ItemView::Index(..) => "index"@,
        }
    }

    /// The directives inside the block of this directive, if it has a block.
    pub open spec fn children(self) -> Option<Seq<DirectiveView>> {
        match self {
            ItemView::Http(b) => Some(b.directives),
            ItemView::Server(b) => Some(b.directives),
            ItemView::Location(b) => Some(b.directives),
            ItemView::LimitExcept(b) => Some(b.directives),
            ItemView::If(b) => Some(b.directives),
            _ => None,
        }
    }
}

impl Item {
    /// The word that a directive of this kind starts with.
    pub fn directive_name(&self) -> (r: &'static str)
        ensures
            r@ == self@.directive_name(),
    {
        match self {
            Item::Daemon(..) => "daemon",
            Item::MasterProcess(..) => "master_process",
            Item::WorkerProcesses(..) => "worker_processes",
            Item::Http(..) => "http",
            Item::Server(..) => "server",
            Item::Location(..) => "location",
            Item::LimitExcept(..) => "limit_except",
            Item::Listen(..) => "listen",
            Item::ProxyPass(..) => "proxy_pass",
            Item::ProxySetHeader { .. } => "proxy_set_header",
            Item::ProxyMethod(..) => "proxy_method",
            Item::ProxyReadTimeout(..) => "proxy_read_timeout",
            Item::ProxyConnectTimeout(..) => "proxy_connect_timeout",
            Item::ProxyHideHeader(..) => "proxy_hide_header",
            Item::ProxyPassHeader(..) => "proxy_pass_header",
            Item::ProxyPassRequestBody(..) => "proxy_pass_request_body",
            Item::ProxyPassRequestHeaders(..) => "proxy_pass_request_headers",
            Item::ProxyHttpVersion(..) => "proxy_http_version",
            Item::ProxyIgnoreHeaders(..) => "proxy_ignore_headers",
            Item::ProxyInterceptErrors(..) => "proxy_intercept_errors",
            Item::ProxyBuffering(..) => "proxy_buffering",
            Item::ProxyCache(..) => "proxy_cache",
            Item::ProxyCacheKey(..) => "proxy_cache_key",
            Item::ProxyCacheValid(..) => "proxy_cache_valid",
            Item::ProxyNextUpstreamTries(..) => "proxy_next_upstream_tries",
            Item::ProxyNextUpstreamTimeout(..) => "proxy_next_upstream_timeout",
            Item::ProxyNextUpstream(..) => "proxy_next_upstream",
            Item::Gzip(..) => "gzip",
            Item::GzipStatic(..) => "gzip_static",
            Item::GzipProxied(..) => "gzip_proxied",
            Item::AddHeader(..) => "add_header",
            Item::Expires(..) => "expires",
            Item::Root(..) => "root",
            Item::Alias(..) => "alias",
            Item::ErrorPage(..) => "error_page",
            Item::DefaultType(..) => "default_type",
            Item::ErrorLog { .. } => "error_log",
            Item::Rewrite(..) => "rewrite",
            Item::Return(..) => "return",
            Item::If(..) => "if",
            Item::TryFiles(..) => "try_files",
            Item::ServerName(..) => "server_name",
            Item::SetVar { .. } => "set",
            Item::MapBlock(..) => "map",
            Item::ClientMaxBodySize(..) => "client_max_body_size",
            Item::Include(..) => "include",
            Item::EmptyGif => "empty_gif",
            Item::Internal => "internal",
            Item::Etag(..) => "etag",
            Item::RecursiveErrorPages(..) => "recursive_error_pages",
            Item::ChunkedTransferEncoding(..) => "chunked_transfer_encoding",
            Item::KeepaliveTimeout(..) => "keepalive_timeout",
            Item::ServerTokens(..) => "server_tokens",
            Item::SslCertificate(..) => "ssl_certificate",
            Item::SslCertificateKey(..) => "ssl_certificate_key",
            Item::RewriteByLuaFile(..) => "rewrite_by_lua_file",
            Item::BalancerByLuaFile(..) => "balancer_by_lua_file",
            Item::AccessByLuaFile(..) => "access_by_lua_file",
            Item::HeaderFilterByLuaFile(..) => "header_filter_by_lua_file",
            Item::ContentByLuaFile(..) => "content_by_lua_file",
            Item::BodyFilterByLuaFile(..) => "body_filter_by_lua_file",
            Item::LogByLuaFile(..) => "log_by_lua_file",
            Item::LuaNeedRequestBody(..) => "lua_need_request_body",
            Item::SslCertificateByLuaFile(..) => "ssl_certificate_by_lua_file",
            Item::SslSessionFetchByLuaFile(..) => "ssl_session_fetch_by_lua_file",
            Item::SslSessionStoreByLuaFile(..) => "ssl_session_store_by_lua_file",
            Item::Allow(..) => "allow",
            Item::Deny(..) => "deny",
            Item::AccessLog(..) => "access_log",
            Item::RealIpHeader(..) => "real_ip_header",
            Item::RealIpRecursive(..) => "real_ip_recursive",
            Item::SetRealIpFrom(..) => "set_real_ip_from",
            Item::Index(..) => "index",
        }
    }

    /// The directives inside the block of this directive, if it has a block.
    pub fn children(&self) -> (r: Option<&[Directive]>)
        ensures
            match r {
                Some(c) => self@.children() == Some(directives_view(c@)),
                None => self@.children() is None,
            },
    {
        match self {
            Item::Http(h) => Some(h.directives.as_slice()),
            Item::Server(s) => Some(s.directives.as_slice()),
            Item::Location(l) => Some(l.directives.as_slice()),
            Item::LimitExcept(l) => Some(l.directives.as_slice()),
            Item::If(val) => Some(val.directives.as_slice()),
            _ => None,
        }
    }
}

impl Item {
    /// The directives inside the block of this directive, if it has a block.
    pub open spec fn kids(self) -> Option<Vec<Directive>> {
        match self {
            Item::Http(h) => Some(h.directives),
            Item::Server(s) => Some(s.directives),
            Item::Location(l) => Some(l.directives),
            Item::LimitExcept(l) => Some(l.directives),
            Item::If(val) => Some(val.directives),
            _ => None,
        }
    }

    /// The directive with `list` as the directives of its block.
    pub open spec fn with_kids(self, list: Vec<Directive>) -> Item {
        match self {
            Item::Http(h) => Item::Http(Http { directives: list, ..h }),
            Item::Server(s) => Item::Server(Server { directives: list, ..s }),
            Item::Location(l) => Item::Location(Location { directives: list, ..l }),
            Item::LimitExcept(l) => Item::LimitExcept(LimitExcept { directives: list, ..l }),
            Item::If(val) => Item::If(If { directives: list, ..val }),
            _ => self,
        }
    }

    /// The directives inside the block of this directive, to be changed in
    /// place.
    pub fn children_mut(&mut self) -> (r: Option<&mut Vec<Directive>>)
        ensures
            match r {
                Some(c) => old(self).kids() == Some(*c) && *final(self) == old(self).with_kids(
                    *final(c),
                ),
                None => old(self).kids() is None && *final(self) == *old(self),
            },
    {
        match self {
            Item::Http(h) => Some(&mut h.directives),
            Item::Server(s) => Some(&mut s.directives),
            Item::Location(l) => Some(&mut l.directives),
            Item::LimitExcept(l) => Some(&mut l.directives),
            Item::If(val) => Some(&mut val.directives),
            _ => None,
        }
    }
}

impl Listen {
    /// A `listen` directive for `address` without any option.
    pub fn new(address: Address) -> (r: Listen)
        ensures
            r@ == ListenView::plain(address@),
    {
        Listen {
            address,
            default_server: false,
            ssl: false,
            ext: None,
            proxy_protocol: false,
            setfib: None,
            fastopen: None,
            backlog: None,
            rcvbuf: None,
            sndbuf: None,
            deferred: false,
            bind: false,
            ipv6only: None,
            reuseport: false,
        }
    }
}

impl ListenView {
    /// A `listen` directive for `address` without any option.
    pub open spec fn plain(address: AddressView) -> ListenView {
        ListenView {
            address,
            default_server: false,
            ssl: false,
            ext: None,
            proxy_protocol: false,
            setfib: None,
            fastopen: None,
            backlog: None,
            rcvbuf: None,
            sndbuf: None,
            deferred: false,
            bind: false,
            ipv6only: None,
            reuseport: false,
        }
    }
}

impl ItemView {
    /// The values that the directive holds itself, in the order in which
    /// they are written. The values of the directives in its block are not
    /// among them.
    pub open spec fn values(self) -> Seq<ValueView> {
        match self {
            ItemView::ProxyPass(v) => seq![v],
            ItemView::ProxyMethod(v) => seq![v],
            ItemView::ProxyReadTimeout(v) => seq![v],
            ItemView::ProxyConnectTimeout(v) => seq![v],
            ItemView::ProxyHideHeader(v) => seq![v],
            ItemView::ProxyPassHeader(v) => seq![v],
            ItemView::ProxyCache(v) => seq![v],
            ItemView::ProxyCacheKey(v) => seq![v],
            ItemView::ProxyNextUpstreamTries(v) => seq![v],
            ItemView::ProxyNextUpstreamTimeout(v) => seq![v],
            ItemView::Root(v) => seq![v],
            ItemView::Alias(v) => seq![v],
            ItemView::DefaultType(v) => seq![v],
            ItemView::ClientMaxBodySize(v) => seq![v],
            ItemView::Include(v) => seq![v],
            ItemView::ServerTokens(v) => seq![v],
            ItemView::SslCertificate(v) => seq![v],
            ItemView::SslCertificateKey(v) => seq![v],
            ItemView::RewriteByLuaFile(v) => seq![v],
            ItemView::BalancerByLuaFile(v) => seq![v],
            ItemView::AccessByLuaFile(v) => seq![v],
            ItemView::HeaderFilterByLuaFile(v) => seq![v],
            ItemView::ContentByLuaFile(v) => seq![v],
            ItemView::BodyFilterByLuaFile(v) => seq![v],
            ItemView::LogByLuaFile(v) => seq![v],
            ItemView::LuaNeedRequestBody(v) => seq![v],
            ItemView::SslCertificateByLuaFile(v) => seq![v],
            ItemView::SslSessionFetchByLuaFile(v) => seq![v],
            ItemView::SslSessionStoreByLuaFile(v) => seq![v],
            ItemView::RealIpHeader(v) => seq![v],
            ItemView::ProxySetHeader { field, value } => seq![field, value],
            ItemView::AddHeader(h) => seq![h.field, h.value],
            ItemView::Expires(e) => seq![e.value],
            ItemView::ErrorPage(e) => seq![e.uri],
            ItemView::ErrorLog { file, level } => seq![file],
            ItemView::Rewrite(r) => seq![r.replacement],
            ItemView::Return(ReturnView::Redirect { code, url }) => seq![url],
            ItemView::Return(ReturnView::Text { code, text: Some(t) }) => seq![t],
            ItemView::If(i) => seq![i.condition.value()],
            ItemView::TryFiles(t) => match t.last_option {
                TryFilesLastOptionView::Uri(v) => t.options.push(v),
                _ => t.options,
            },
            ItemView::KeepaliveTimeout(a, Some(b)) => seq![a, b],
            ItemView::KeepaliveTimeout(a, None) => seq![a],
            ItemView::SetVar { variable, value } => seq![value],
            ItemView::MapBlock(m) => m.values(),
            ItemView::AccessLog(AccessLogView::On(o)) => match o.condition {
                Some(c) => seq![o.path, c],
                None => seq![o.path],
            },
            ItemView::ProxyCacheValid(v) => seq![v.time()],
            ItemView::Index(v) => v,
            _ => Seq::empty(),
        }
    }

    /// The directive with `vs` in place of the values that it holds itself.
    pub open spec fn with_values(self, vs: Seq<ValueView>) -> ItemView {
        match self {
            ItemView::ProxyPass(_) => ItemView::ProxyPass(vs[0]),
            ItemView::ProxyMethod(_) => ItemView::ProxyMethod(vs[0]),
            ItemView::ProxyReadTimeout(_) => ItemView::ProxyReadTimeout(vs[0]),
            ItemView::ProxyConnectTimeout(_) => ItemView::ProxyConnectTimeout(vs[0]),
            ItemView::ProxyHideHeader(_) => ItemView::ProxyHideHeader(vs[0]),
            ItemView::ProxyPassHeader(_) => ItemView::ProxyPassHeader(vs[0]),
            ItemView::ProxyCache(_) => ItemView::ProxyCache(vs[0]),
            ItemView::ProxyCacheKey(_) => ItemView::ProxyCacheKey(vs[0]),
            ItemView::ProxyNextUpstreamTries(_) => ItemView::ProxyNextUpstreamTries(vs[0]),
            ItemView::ProxyNextUpstreamTimeout(_) => ItemView::ProxyNextUpstreamTimeout(vs[0]),
            ItemView::Root(_) => ItemView::Root(vs[0]),
            ItemView::Alias(_) => ItemView::Alias(vs[0]),
            ItemView::DefaultType(_) => ItemView::DefaultType(vs[0]),
            ItemView::ClientMaxBodySize(_) => ItemView::ClientMaxBodySize(vs[0]),
            ItemView::Include(_) => ItemView::Include(vs[0]),
            ItemView::ServerTokens(_) => ItemView::ServerTokens(vs[0]),
            ItemView::SslCertificate(_) => ItemView::SslCertificate(vs[0]),
            ItemView::SslCertificateKey(_) => ItemView::SslCertificateKey(vs[0]),
            ItemView::RewriteByLuaFile(_) => ItemView::RewriteByLuaFile(vs[0]),
            ItemView::BalancerByLuaFile(_) => ItemView::BalancerByLuaFile(vs[0]),
            ItemView::AccessByLuaFile(_) => ItemView::AccessByLuaFile(vs[0]),
            ItemView::HeaderFilterByLuaFile(_) => ItemView::HeaderFilterByLuaFile(vs[0]),
            ItemView::ContentByLuaFile(_) => ItemView::ContentByLuaFile(vs[0]),
            ItemView::BodyFilterByLuaFile(_) => ItemView::BodyFilterByLuaFile(vs[0]),
            ItemView::LogByLuaFile(_) => ItemView::LogByLuaFile(vs[0]),
            ItemView::LuaNeedRequestBody(_) => ItemView::LuaNeedRequestBody(vs[0]),
            ItemView::SslCertificateByLuaFile(_) => ItemView::SslCertificateByLuaFile(vs[0]),
            ItemView::SslSessionFetchByLuaFile(_) => ItemView::SslSessionFetchByLuaFile(vs[0]),
            ItemView::SslSessionStoreByLuaFile(_) => ItemView::SslSessionStoreByLuaFile(vs[0]),
            ItemView::RealIpHeader(_) => ItemView::RealIpHeader(vs[0]),
            ItemView::ProxySetHeader { field, value } => ItemView::ProxySetHeader {
                field: vs[0],
                value: vs[1],
            },
            ItemView::AddHeader(h) => ItemView::AddHeader(
                AddHeaderView { field: vs[0], value: vs[1], ..h },
            ),
            ItemView::Expires(e) => ItemView::Expires(ExpiresView { value: vs[0], ..e }),
            ItemView::ErrorPage(e) => ItemView::ErrorPage(ErrorPageView { uri: vs[0], ..e }),
            ItemView::ErrorLog { file, level } => ItemView::ErrorLog { file: vs[0], level },
            ItemView::Rewrite(r) => ItemView::Rewrite(RewriteView { replacement: vs[0], ..r }),
            ItemView::Return(ReturnView::Redirect { code, url }) => ItemView::Return(
                ReturnView::Redirect { code, url: vs[0] },
            ),
            ItemView::Return(ReturnView::Text { code, text: Some(t) }) => ItemView::Return(
                ReturnView::Text { code, text: Some(vs[0]) },
            ),
            ItemView::If(i) => ItemView::If(
                IfView { condition: i.condition.with_value(vs[0]), ..i },
            ),
            ItemView::TryFiles(t) => match t.last_option {
                TryFilesLastOptionView::Uri(v) => ItemView::TryFiles(
                    TryFilesView {
                        options: vs.drop_last(),
                        last_option: TryFilesLastOptionView::Uri(vs.last()),
                    },
                ),
                _ => ItemView::TryFiles(TryFilesView { options: vs, ..t }),
            },
            ItemView::KeepaliveTimeout(a, Some(b)) => ItemView::KeepaliveTimeout(
                vs[0],
                Some(vs[1]),
            ),
            ItemView::KeepaliveTimeout(a, None) => ItemView::KeepaliveTimeout(vs[0], None),
            ItemView::SetVar { variable, value } => ItemView::SetVar { variable, value: vs[0] },
            ItemView::MapBlock(m) => ItemView::MapBlock(m.with_values(vs)),
            ItemView::AccessLog(AccessLogView::On(o)) => match o.condition {
                Some(c) => ItemView::AccessLog(
                    AccessLogView::On(
                        AccessLogOptionsView { path: vs[0], condition: Some(vs[1]), ..o },
                    ),
                ),
                None => ItemView::AccessLog(
                    AccessLogView::On(AccessLogOptionsView { path: vs[0], ..o }),
                ),
            },
            ItemView::ProxyCacheValid(v) => ItemView::ProxyCacheValid(v.with_time(vs[0])),
            ItemView::Index(v) => ItemView::Index(vs),
            _ => self,
        }
    }

    /// The directive with the positions `span` for its block, if it has a
    /// block.
    pub open spec fn with_span(self, span: Span) -> ItemView {
        match self {
            ItemView::Http(b) => ItemView::Http(BlockView { position: span, ..b }),
            ItemView::Server(b) => ItemView::Server(BlockView { position: span, ..b }),
            ItemView::Location(l) => ItemView::Location(LocationView { position: span, ..l }),
            ItemView::LimitExcept(l) => ItemView::LimitExcept(
                LimitExceptView { position: span, ..l },
            ),
            ItemView::If(i) => ItemView::If(IfView { position: span, ..i }),
            _ => self,
        }
    }

    /// The directive with `list` in place of the directives of its block,
    /// if it has a block.
    pub open spec fn with_children(self, list: Seq<DirectiveView>) -> ItemView {
        match self {
            ItemView::Http(b) => ItemView::Http(BlockView { directives: list, ..b }),
            ItemView::Server(b) => ItemView::Server(BlockView { directives: list, ..b }),
            ItemView::Location(l) => ItemView::Location(LocationView { directives: list, ..l }),
            ItemView::LimitExcept(l) => ItemView::LimitExcept(
                LimitExceptView { directives: list, ..l },
            ),
            ItemView::If(i) => ItemView::If(IfView { directives: list, ..i }),
            _ => self,
        }
    }
}

impl IfConditionView {
    /// The value that the condition tests.
    pub open spec fn value(self) -> ValueView {
        match self {
            IfConditionView::NonEmpty(v) => v,
            IfConditionView::Eq(v, _) => v,
            IfConditionView::Neq(v, _) => v,
            IfConditionView::RegEq(v, _, _) => v,
            IfConditionView::RegNeq(v, _, _) => v,
            IfConditionView::Exists(v) => v,
            IfConditionView::NotExists(v) => v,
            IfConditionView::FileExists(v) => v,
            IfConditionView::FileNotExists(v) => v,
            IfConditionView::DirExists(v) => v,
            IfConditionView::DirNotExists(v) => v,
            IfConditionView::Executable(v) => v,
            IfConditionView::NotExecutable(v) => v,
        }
    }

    /// The condition with `v` in place of the value that it tests.
    pub open spec fn with_value(self, v: ValueView) -> IfConditionView {
        match self {
            IfConditionView::NonEmpty(_) => IfConditionView::NonEmpty(v),
            IfConditionView::Eq(_, s) => IfConditionView::Eq(v, s),
            IfConditionView::Neq(_, s) => IfConditionView::Neq(v, s),
            IfConditionView::RegEq(_, s, c) => IfConditionView::RegEq(v, s, c),
            IfConditionView::RegNeq(_, s, c) => IfConditionView::RegNeq(v, s, c),
            IfConditionView::Exists(_) => IfConditionView::Exists(v),
            IfConditionView::NotExists(_) => IfConditionView::NotExists(v),
            IfConditionView::FileExists(_) => IfConditionView::FileExists(v),
            IfConditionView::FileNotExists(_) => IfConditionView::FileNotExists(v),
            IfConditionView::DirExists(_) => IfConditionView::DirExists(v),
            IfConditionView::DirNotExists(_) => IfConditionView::DirNotExists(v),
            IfConditionView::Executable(_) => IfConditionView::Executable(v),
            IfConditionView::NotExecutable(_) => IfConditionView::NotExecutable(v),
        }
    }
}

impl ProxyCacheValidView {
    /// The time for which responses are kept.
    pub open spec fn time(self) -> ValueView {
        match self {
            ProxyCacheValidView::Normal(v) => v,
            ProxyCacheValidView::Specific(_, v) => v,
            ProxyCacheValidView::Any(v) => v,
        }
    }

    /// The same with `v` as the time.
    pub open spec fn with_time(self, v: ValueView) -> ProxyCacheValidView {
        match self {
            ProxyCacheValidView::Normal(_) => ProxyCacheValidView::Normal(v),
            ProxyCacheValidView::Specific(c, _) => ProxyCacheValidView::Specific(c, v),
            ProxyCacheValidView::Any(_) => ProxyCacheValidView::Any(v),
        }
    }
}

/// The values of the first `n` patterns of `list`.
pub open spec fn pattern_values(list: Seq<(MapPatternView, ValueView)>) -> Seq<ValueView> {
    list.map_values(|p: (MapPatternView, ValueView)| p.1)
}

/// The patterns of `list` with the values `vs`.
pub open spec fn patterns_with(list: Seq<(MapPatternView, ValueView)>, vs: Seq<ValueView>) -> Seq<
    (MapPatternView, ValueView),
> {
    Seq::new(list.len(), |k: int| (list[k].0, vs[k]))
}

impl MapBlockView {
    /// The values of the block: the expression, the default if there is
    /// one, and the values of the patterns.
    pub open spec fn values(self) -> Seq<ValueView> {
        match self.default {
            Some(d) => seq![self.expression, d] + pattern_values(self.patterns),
            None => seq![self.expression] + pattern_values(self.patterns),
        }
    }

    /// The block with `vs` in place of its values.
    pub open spec fn with_values(self, vs: Seq<ValueView>) -> MapBlockView {
        match self.default {
            Some(_) => MapBlockView {
                expression: vs[0],
                default: Some(vs[1]),
                patterns: patterns_with(self.patterns, vs.skip(2)),
                ..self
            },
            None => MapBlockView {
                expression: vs[0],
                patterns: patterns_with(self.patterns, vs.skip(1)),
                ..self
            },
        }
    }
}

/// A second list with copies of the directives of `list`.
fn copy_all(list: &Vec<Directive>) -> (r: Vec<Directive>)
    ensures
        directives_view(r@) == directives_view(list@),
    decreases list,
{
    let mut out: Vec<Directive> = Vec::new();
    let mut i: usize = 0;
    while i < list.len()
        invariant
            i <= list.len(),
            directives_view(out@) == directives_view(list@.take(i as int)),
        decreases list.len() - i,
    {
        proof {
            broadcast use vstd::std_specs::vec::axiom_vec_index_decreases;
        }
        let d = list[i].copy();
        proof {
            lemma_directives_view_push(out@, d);
            lemma_directives_view_push(list@.take(i as int), list@[i as int]);
            assert(list@.take(i as int).push(list@[i as int]) =~= list@.take(i + 1));
        }
        out.push(d);
        i += 1;
    }
    assert(list@.take(list.len() as int) =~= list@);
    out
}

impl Directive {
    /// A second directive with the same position and content.
    fn copy(&self) -> (r: Directive)
        ensures
            r@ == self@,
        decreases self,
    {
        Directive { position: self.position, item: self.item.copy() }
    }
}

impl Clone for Directive {
    fn clone(&self) -> (r: Directive)
        ensures
            r@ == self@,
    {
        self.copy()
    }
}

impl Clone for Item {
    fn clone(&self) -> (r: Item)
        ensures
            r@ == self@,
    {
        self.copy()
    }
}

impl Clone for Main {
    fn clone(&self) -> (r: Main)
        ensures
            r@ == self@,
    {
        Main { directives: copy_all(&self.directives) }
    }
}

impl Clone for Http {
    fn clone(&self) -> (r: Http)
        ensures
            r@ == self@,
    {
        Http { position: self.position, directives: copy_all(&self.directives) }
    }
}

impl Clone for Server {
    fn clone(&self) -> (r: Server)
        ensures
            r@ == self@,
    {
        Server { position: self.position, directives: copy_all(&self.directives) }
    }
}

impl Clone for Location {
    fn clone(&self) -> (r: Location)
        ensures
            r@ == self@,
    {
        Location {
            position: self.position,
            pattern: self.pattern.copy(),
            directives: copy_all(&self.directives),
        }
    }
}

impl Clone for LimitExcept {
    fn clone(&self) -> (r: LimitExcept)
        ensures
            r@ == self@,
    {
        LimitExcept {
            position: self.position,
            methods: copy_texts(&self.methods),
            directives: copy_all(&self.directives),
        }
    }
}

impl Clone for If {
    fn clone(&self) -> (r: If)
        ensures
            r@ == self@,
    {
        If {
            position: self.position,
            condition: self.condition.copy(),
            directives: copy_all(&self.directives),
        }
    }
}

impl Item {
    /// A second directive with the same content.
    fn copy(&self) -> (r: Item)
        ensures
            r@ == self@,
        decreases self,
    {
        match self {
            Item::Daemon(a) => Item::Daemon(*a),
            Item::MasterProcess(a) => Item::MasterProcess(*a),
            Item::WorkerProcesses(a) => Item::WorkerProcesses(*a),
            Item::Http(b) => Item::Http(
                Http { position: b.position, directives: copy_all(&b.directives) },
            ),
            Item::Server(b) => Item::Server(
                Server { position: b.position, directives: copy_all(&b.directives) },
            ),
            Item::Location(b) => Item::Location(
                Location {
                    position: b.position,
                    pattern: b.pattern.copy(),
                    directives: copy_all(&b.directives),
                },
            ),
            Item::LimitExcept(b) => Item::LimitExcept(
                LimitExcept {
                    position: b.position,
                    methods: copy_texts(&b.methods),
                    directives: copy_all(&b.directives),
                },
            ),
            Item::Listen(a) => Item::Listen(a.copy()),
            Item::ProxyPass(a) => Item::ProxyPass(a.copy()),
            Item::ProxySetHeader { field, value } => Item::ProxySetHeader {
                field: field.copy(),
                value: value.copy(),
            },
            Item::ProxyMethod(a) => Item::ProxyMethod(a.copy()),
            Item::ProxyReadTimeout(a) => Item::ProxyReadTimeout(a.copy()),
            Item::ProxyConnectTimeout(a) => Item::ProxyConnectTimeout(a.copy()),
            Item::ProxyHideHeader(a) => Item::ProxyHideHeader(a.copy()),
            Item::ProxyPassHeader(a) => Item::ProxyPassHeader(a.copy()),
            Item::ProxyPassRequestBody(a) => Item::ProxyPassRequestBody(*a),
            Item::ProxyPassRequestHeaders(a) => Item::ProxyPassRequestHeaders(*a),
            Item::ProxyHttpVersion(a) => Item::ProxyHttpVersion(*a),
            Item::ProxyIgnoreHeaders(a) => Item::ProxyIgnoreHeaders(copy_texts(a)),
            Item::ProxyInterceptErrors(a) => Item::ProxyInterceptErrors(*a),
            Item::ProxyBuffering(a) => Item::ProxyBuffering(*a),
            Item::ProxyCache(a) => Item::ProxyCache(a.copy()),
            Item::ProxyCacheKey(a) => Item::ProxyCacheKey(a.copy()),
            Item::ProxyCacheValid(a) => Item::ProxyCacheValid(a.copy()),
            Item::ProxyNextUpstreamTries(a) => Item::ProxyNextUpstreamTries(a.copy()),
            Item::ProxyNextUpstreamTimeout(a) => Item::ProxyNextUpstreamTimeout(a.copy()),
            Item::ProxyNextUpstream(a) => Item::ProxyNextUpstream(copy_plain(a)),
            Item::Gzip(a) => Item::Gzip(*a),
            Item::GzipStatic(a) => Item::GzipStatic(*a),
            Item::GzipProxied(a) => Item::GzipProxied(copy_plain(a)),
            Item::AddHeader(a) => Item::AddHeader(a.copy()),
            Item::Expires(a) => Item::Expires(a.copy()),
            Item::Root(a) => Item::Root(a.copy()),
            Item::Alias(a) => Item::Alias(a.copy()),
            Item::ErrorPage(a) => Item::ErrorPage(a.copy()),
            Item::DefaultType(a) => Item::DefaultType(a.copy()),
            Item::ErrorLog { file, level } => Item::ErrorLog {
                file: file.copy(),
                level: *level,
            },
            Item::Rewrite(a) => Item::Rewrite(a.copy()),
            Item::Return(a) => Item::Return(a.copy()),
            Item::If(b) => Item::If(
                If {
                    position: b.position,
                    condition: b.condition.copy(),
                    directives: copy_all(&b.directives),
                },
            ),
            Item::TryFiles(a) => Item::TryFiles(a.copy()),
            Item::ServerName(a) => Item::ServerName(copy_names(a)),
            Item::SetVar { variable, value } => Item::SetVar {
                variable: copy_text(variable),
                value: value.copy(),
            },
            Item::MapBlock(a) => Item::MapBlock(a.copy()),
            Item::ClientMaxBodySize(a) => Item::ClientMaxBodySize(a.copy()),
            Item::Include(a) => Item::Include(a.copy()),
            Item::EmptyGif => Item::EmptyGif,
            Item::Internal => Item::Internal,
            Item::Etag(a) => Item::Etag(*a),
            Item::RecursiveErrorPages(a) => Item::RecursiveErrorPages(*a),
            Item::ChunkedTransferEncoding(a) => Item::ChunkedTransferEncoding(*a),
            Item::KeepaliveTimeout(a, b) => Item::KeepaliveTimeout(a.copy(), copy_value_option(b)),
            Item::ServerTokens(a) => Item::ServerTokens(a.copy()),
            Item::SslCertificate(a) => Item::SslCertificate(a.copy()),
            Item::SslCertificateKey(a) => Item::SslCertificateKey(a.copy()),
            Item::RewriteByLuaFile(a) => Item::RewriteByLuaFile(a.copy()),
            Item::BalancerByLuaFile(a) => Item::BalancerByLuaFile(a.copy()),
            Item::AccessByLuaFile(a) => Item::AccessByLuaFile(a.copy()),
            Item::HeaderFilterByLuaFile(a) => Item::HeaderFilterByLuaFile(a.copy()),
            Item::ContentByLuaFile(a) => Item::ContentByLuaFile(a.copy()),
            Item::BodyFilterByLuaFile(a) => Item::BodyFilterByLuaFile(a.copy()),
            Item::LogByLuaFile(a) => Item::LogByLuaFile(a.copy()),
            Item::LuaNeedRequestBody(a) => Item::LuaNeedRequestBody(a.copy()),
            Item::SslCertificateByLuaFile(a) => Item::SslCertificateByLuaFile(a.copy()),
            Item::SslSessionFetchByLuaFile(a) => Item::SslSessionFetchByLuaFile(a.copy()),
            Item::SslSessionStoreByLuaFile(a) => Item::SslSessionStoreByLuaFile(a.copy()),
            Item::Allow(a) => Item::Allow(*a),
            Item::Deny(a) => Item::Deny(*a),
            Item::AccessLog(a) => Item::AccessLog(a.copy()),
            Item::RealIpHeader(a) => Item::RealIpHeader(a.copy()),
            Item::RealIpRecursive(a) => Item::RealIpRecursive(*a),
            Item::SetRealIpFrom(a) => Item::SetRealIpFrom(*a),
            Item::Index(a) => Item::Index(copy_values(a)),
        }
    }
}

} // verus!
