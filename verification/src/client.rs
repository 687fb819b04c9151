//! The session with the game client's loopback API.
//!
//! A session is made from the lockfile. It says which requests to send:
//! every request goes to `https://127.0.0.1:<port>` and carries the Basic
//! authentication token. What came back is judged by `get_data`.

use crate::client_runepage::{
    eligible, first_page, is_active_page, is_tool_page, lemma_first_page, replace_target,
    NewRunePage, NewRunePageView, RunePage,
};
use crate::lcc::{
    parsed, LeagueClientConnector, LeagueConnectorError, LockFileView, RiotLockFile,
};
use crate::text::{decimal, decimal_nat, push_decimal, push_signed_decimal, starts_with};
use vstd::prelude::*;
use vstd::string::StringExecFns;

verus! {

/// The system that the program runs on.
#[derive(Clone, Copy, Debug, PartialEq, Eq, Structural)]
pub enum Platform {
    Windows,
    MacOs,
    Linux,
}

/// The HTTP agent of ureq. The library builds one for each session and
/// hands it to the host, which sends the requests through it; nothing is
/// known of what it holds.
#[verifier::external_type_specification]
#[verifier::external_body]
pub struct ExAgent(ureq::Agent);

/// The TLS connector of native-tls. It is passed on to the agent; nothing is
/// known of what it holds.
#[verifier::external_type_specification]
#[verifier::external_body]
pub struct ExTlsConnector(native_tls::TlsConnector);

/// The builder of TLS connectors of native-tls; nothing is known of what it
/// holds.
#[verifier::external_type_specification]
#[verifier::external_body]
pub struct ExTlsConnectorBuilder(native_tls::TlsConnectorBuilder);

/// The builder of agents of ureq; nothing is known of what it holds.
#[verifier::external_type_specification]
#[verifier::external_body]
pub struct ExAgentBuilder(ureq::AgentBuilder);

/// The error of native-tls. It is kept as the cause of a failed TLS setup;
/// nothing is known of what it holds.
#[verifier::external_type_specification]
#[verifier::external_body]
pub struct ExTlsError(native_tls::Error);

/// Why no session could be made.
#[derive(Debug)]
pub enum LOLClientError {
    TlsConnectorError(native_tls::Error),
    LockfileReadError(LeagueConnectorError),
    LinuxNotSupported,
}

impl LOLClientError {
    /// The error in words.
    pub fn message(&self) -> (text: &'static str)
        ensures
            text@ == match *self {
                LOLClientError::TlsConnectorError(_) => "Unable to create TLS connector"@,
                LOLClientError::LockfileReadError(_) => "Unable to read lockfile"@,
                LOLClientError::LinuxNotSupported => "Linux is not supported"@,
            },
    {
        match self {
            LOLClientError::TlsConnectorError(_) => "Unable to create TLS connector",
            LOLClientError::LockfileReadError(_) => "Unable to read lockfile",
            LOLClientError::LinuxNotSupported => "Linux is not supported",
        }
    }
}

impl Platform {
    /// Where the client writes its lockfile. There is no such place on Linux.
    pub fn lockfile_path(self) -> (r: Result<&'static str, LOLClientError>)
        ensures
            match self {
                Platform::Windows => r matches Ok(path) && path@
                    == "C:\\Riot Games\\League of Legends\\lockfile"@,
                Platform::MacOs => r matches Ok(path) && path@
                    == "/Applications/League of Legends.app/Contents/LoL/lockfile"@,
                Platform::Linux => r matches Err(LOLClientError::LinuxNotSupported),
            },
    {
        match self {
            Platform::Windows => Ok("C:\\Riot Games\\League of Legends\\lockfile"),
            Platform::MacOs => Ok("/Applications/League of Legends.app/Contents/LoL/lockfile"),
            Platform::Linux => Err(LOLClientError::LinuxNotSupported),
        }
    }
}

/// The HTTP method of a request.
#[derive(Clone, Copy, Debug, PartialEq, Eq, Structural)]
pub enum Method {
    Get,
    Post,
    Delete,
}

/// A request for the host to send.
#[derive(Clone, Debug, PartialEq, Eq)]
pub struct ClientRequest {
    pub method: Method,
    pub url: String,
    /// The value of the `Authorization` header.
    pub authorization: String,
    /// The page to send as JSON, for a `Post`.
    pub body: Option<NewRunePage>,
}

/// A request as plain values.
pub struct RequestView {
    pub method: Method,
    pub url: Seq<char>,
    pub authorization: Seq<char>,
    pub body: Option<NewRunePageView>,
}

impl View for ClientRequest {
    type V = RequestView;

    open spec fn view(&self) -> RequestView {
        RequestView {
            method: self.method,
            url: self.url@,
            authorization: self.authorization@,
            body: match self.body {
                Some(page) => Some(page@),
                None => None,
            },
        }
    }
}

/// Each request as plain values.
pub open spec fn request_views(requests: Seq<ClientRequest>) -> Seq<RequestView> {
    Seq::new(requests.len(), |k: int| requests[k]@)
}

/// What the host got for a request.
#[derive(Clone, Debug, PartialEq, Eq)]
pub enum ClientResponse<T> {
    /// No answer: the connection failed or timed out.
    Unreachable,
    /// An answer with its status code, and its body where one could be decoded.
    Status { code: u16, body: Option<T> },
}

/// The data of a reply: the decoded body of an answer with a status from 200
/// to 299. Everything else counts as no data.
pub open spec fn data_of<T>(response: ClientResponse<T>) -> Option<T> {
    match response {
        ClientResponse::Status { code, body: Some(data) } => if 200 <= code < 300 {
            Some(data)
        } else {
            None
        },
        _ => None,
    }
}

/// Judges a reply: see `data_of`.
pub fn get_data<T>(response: ClientResponse<T>) -> (data: Option<T>)
    ensures
        data == data_of(response),
{
    match response {
        ClientResponse::Status { code, body: Some(data) } => {
            if 200 <= code && code < 300 {
                Some(data)
            } else {
                None
            }
        },
        _ => None,
    }
}

/// The pages of a reply to the page list request; none where it had no data.
pub open spec fn listed(pages: Option<&Vec<RunePage>>) -> Seq<RunePage> {
    match pages {
        Some(pages) => pages@,
        None => Seq::empty(),
    }
}

/// The pages of a reply to the page list request, where it had data.
pub open spec fn pages_view(pages: Option<&Vec<RunePage>>) -> Option<Seq<RunePage>> {
    match pages {
        Some(pages) => Some(pages@),
        None => None,
    }
}

/// The path of the page with this id.
pub open spec fn page_endpoint(id: i64) -> Seq<char> {
    "/lol-perks/v1/pages/"@ + decimal(id as int)
}

/// What came of setting up TLS, beside the setting that was asked for.
///
/// The setting is a note beside the connector, which is opaque. `TlsSetup::new`
/// notes what it hands to native-tls. Whoever fills the fields by hand can
/// pair any note with any connector: the note then says nothing.
#[derive(Debug)]
pub struct TlsSetup {
    /// Whether the connector was asked to accept certificates that do not
    /// validate.
    pub accept_invalid_certs: bool,
    pub connector: Result<native_tls::TlsConnector, native_tls::Error>,
}

/// A session with the client: the agent that reaches it, what its lockfile
/// said, and the note of its TLS setup on whether the connector was asked
/// to accept certificates that do not validate.
#[derive(Debug)]
pub struct LOLClientAPI {
    pub agent: ureq::Agent,
    pub lockfile: RiotLockFile,
    pub accept_invalid_certs: bool,
}

/// A session as plain values. The agent has none.
pub struct SessionView {
    pub lockfile: LockFileView,
    pub accept_invalid_certs: bool,
}

impl View for LOLClientAPI {
    type V = SessionView;

    open spec fn view(&self) -> SessionView {
        SessionView { lockfile: self.lockfile@, accept_invalid_certs: self.accept_invalid_certs }
    }
}

/// The outcome of making a session as plain values.
pub open spec fn session_view(r: Result<LOLClientAPI, LOLClientError>) -> Result<
    SessionView,
    LOLClientError,
> {
    match r {
        Ok(api) => Ok(api@),
        Err(e) => Err(e),
    }
}

/// The characters of the lockfile, where there is one.
pub open spec fn contents_view(lockfile: Option<&str>) -> Option<Seq<char>> {
    match lockfile {
        Some(contents) => Some(contents@),
        None => None,
    }
}

/// What the lockfile decides once TLS is set up with the given setting;
/// `None` stands for a file that could not be read.
pub open spec fn lockfile_session(lockfile: Option<Seq<char>>, accept_invalid_certs: bool) -> Result<
    SessionView,
    LOLClientError,
> {
    match lockfile {
        None => Err(LOLClientError::LockfileReadError(LeagueConnectorError::UnableToRead)),
        Some(contents) => match parsed(contents) {
            Ok(lockfile) => Ok(SessionView { lockfile, accept_invalid_certs }),
            Err(e) => Err(LOLClientError::LockfileReadError(e)),
        },
    }
}

/// What `LOLClientAPI::with_connector` decides: the first thing that is
/// wrong names the error, in the order platform, TLS, lockfile.
pub open spec fn session_of(platform: Platform, setup: TlsSetup, lockfile: Option<Seq<char>>) -> Result<
    SessionView,
    LOLClientError,
> {
    if platform == Platform::Linux {
        Err(LOLClientError::LinuxNotSupported)
    } else {
        match setup.connector {
            Err(e) => Err(LOLClientError::TlsConnectorError(e)),
            Ok(_) => lockfile_session(lockfile, setup.accept_invalid_certs),
        }
    }
}

/// `TlsConnector::builder` of native-tls: a builder with the default
/// settings. Nothing is claimed of it.
#[verifier::external_body]
fn tls_builder() -> native_tls::TlsConnectorBuilder {
    native_tls::TlsConnector::builder()
}

/// `TlsConnectorBuilder::danger_accept_invalid_certs` of native-tls: sets
/// whether connectors of this builder accept certificates that do not
/// validate. Nothing is claimed of the builder afterwards.
#[verifier::external_body]
fn set_accept_invalid_certs(builder: &mut native_tls::TlsConnectorBuilder, accept: bool) {
    builder.danger_accept_invalid_certs(accept);
}

/// `TlsConnectorBuilder::build` of native-tls: makes the connector. The
/// system's TLS library decides whether one can be made, so nothing is
/// claimed of the outcome.
#[verifier::external_body]
fn build_connector(builder: &native_tls::TlsConnectorBuilder) -> Result<
    native_tls::TlsConnector,
    native_tls::Error,
> {
    builder.build()
}

/// `AgentBuilder::new` of ureq: a builder with the default settings. Nothing
/// is claimed of it.
#[verifier::external_body]
fn agent_builder() -> ureq::AgentBuilder {
    ureq::AgentBuilder::new()
}

/// `AgentBuilder::tls_connector` of ureq: lets agents of this builder open
/// their TLS connections with `connector`. Nothing is claimed of the builder
/// that comes back.
#[verifier::external_body]
fn use_connector(
    builder: ureq::AgentBuilder,
    connector: native_tls::TlsConnector,
) -> ureq::AgentBuilder {
    builder.tls_connector(std::sync::Arc::new(connector))
}

/// `AgentBuilder::build` of ureq: makes the agent. Nothing is claimed of it.
#[verifier::external_body]
fn build_agent(builder: ureq::AgentBuilder) -> ureq::Agent {
    builder.build()
}

/// Publishing replaces: where a page of this library's making can be deleted,
/// the first such page is deleted and then the new page is created, in two
/// requests. Without one, the same holds of the first page that is in use
/// and can be deleted. Where there is neither, the one request creates the
/// new page. Where the pages are not known, nothing is sent.
pub proof fn lemma_publish_replaces(api: LOLClientAPI, pages: Seq<RunePage>, page: NewRunePageView)
    ensures
        api.publish_plan(None, page).len() == 0,
        (exists|i: int| 0 <= i < pages.len() && is_tool_page(#[trigger] pages[i])) ==> {
            let first = first_page(pages, true);
            &&& first is Some
            &&& is_tool_page(pages[first->0])
            &&& api.publish_plan(Some(pages), page) == seq![
                api.request_of(Method::Delete, page_endpoint(pages[first->0].id), None),
                api.request_of(Method::Post, "/lol-perks/v1/pages"@, Some(page)),
            ]
        },
        !(exists|i: int| 0 <= i < pages.len() && is_tool_page(#[trigger] pages[i])) && (exists|
            i: int,
        |
            0 <= i < pages.len() && is_active_page(#[trigger] pages[i])) ==> {
            let first = first_page(pages, false);
            &&& first is Some
            &&& is_active_page(pages[first->0])
            &&& api.publish_plan(Some(pages), page) == seq![
                api.request_of(Method::Delete, page_endpoint(pages[first->0].id), None),
                api.request_of(Method::Post, "/lol-perks/v1/pages"@, Some(page)),
            ]
        },
        (forall|i: int|
            0 <= i < pages.len() ==> !is_tool_page(#[trigger] pages[i]) && !is_active_page(
                pages[i],
            )) ==> api.publish_plan(Some(pages), page) == seq![
            api.request_of(Method::Post, "/lol-perks/v1/pages"@, Some(page)),
        ],
{
    lemma_first_page(pages, true);
    lemma_first_page(pages, false);
    if exists|i: int| 0 <= i < pages.len() && is_tool_page(#[trigger] pages[i]) {
        let i = choose|i: int| 0 <= i < pages.len() && is_tool_page(#[trigger] pages[i]);
        assert(eligible(pages[i], true));
    } else if exists|i: int| 0 <= i < pages.len() && is_active_page(#[trigger] pages[i]) {
        let i = choose|i: int| 0 <= i < pages.len() && is_active_page(#[trigger] pages[i]);
        assert(eligible(pages[i], false));
        assert forall|j: int| 0 <= j < pages.len() implies !eligible(#[trigger] pages[j], true) by {
            assert(!is_tool_page(pages[j]));
        }
    }
    if forall|i: int|
        0 <= i < pages.len() ==> !is_tool_page(#[trigger] pages[i]) && !is_active_page(pages[i]) {
        if first_page(pages, true) is Some {
            assert(is_tool_page(pages[first_page(pages, true)->0]));
        }
        if first_page(pages, false) is Some {
            assert(is_active_page(pages[first_page(pages, false)->0]));
        }
    }
}

fn find_page(pages: &Vec<RunePage>, tool: bool) -> (r: Option<usize>)
    ensures
        match r {
            Some(i) => i < pages.len() && first_page(pages@, tool) == Some(i as int),
            None => first_page(pages@, tool) is None,
        },
{
    let mut k: usize = 0;
    while k < pages.len()
        invariant
            k <= pages.len(),
            forall|j: int| 0 <= j < k ==> !eligible(#[trigger] pages@[j], tool),
        decreases pages.len() - k,
    {
        let page = &pages[k];
        let found = page.is_deletable && if tool {
            starts_with(page.name.as_str(), "uggo:")
        } else {
            page.current
        };
        if found {
            proof {
                lemma_first_page(pages@, tool);
            }
            return Some(k);
        }
        k = k + 1;
    }
    proof {
        lemma_first_page(pages@, tool);
    }
    None
}

impl TlsSetup {
    /// Sets up TLS. The setting is handed to native-tls and noted beside the
    /// outcome; whether a connector can be made is up to the system.
    pub fn new(accept_invalid_certs: bool) -> (setup: TlsSetup)
        ensures
            setup.accept_invalid_certs == accept_invalid_certs,
    {
        let mut builder = tls_builder();
        set_accept_invalid_certs(&mut builder, accept_invalid_certs);
        TlsSetup { accept_invalid_certs, connector: build_connector(&builder) }
    }
}

impl LOLClientAPI {
    /// Makes a session for a client whose lockfile holds `lockfile`; `None`
    /// stands for a file that could not be read.
    ///
    /// There is no session on Linux, whatever the lockfile says. Elsewhere
    /// TLS is set up to accept certificates that do not validate, as the
    /// client's self-signed one: every session says so, and its requests go
    /// to the loopback address alone. Whether TLS can be set up is up to the
    /// system. Where it can, the lockfile decides.
    pub fn new(platform: Platform, lockfile: Option<&str>) -> (r: Result<
        LOLClientAPI,
        LOLClientError,
    >)
        ensures
            platform == Platform::Linux ==> r matches Err(LOLClientError::LinuxNotSupported),
            platform != Platform::Linux ==> r matches Err(LOLClientError::TlsConnectorError(_))
                || session_view(r) == lockfile_session(contents_view(lockfile), true),
            r matches Ok(api) ==> api.accept_invalid_certs && api.lockfile.well_formed(),
    {
        match platform {
            Platform::Linux => Err(LOLClientError::LinuxNotSupported),
            _ => Self::with_connector(platform, TlsSetup::new(true), lockfile),
        }
    }

    /// Makes a session from the outcome of the TLS setup and the lockfile:
    /// see `session_of`. The session takes the note of the setup as it is:
    /// it is true of the agent only where it was true of the connector, as
    /// it is for a setup made by `TlsSetup::new`.
    pub fn with_connector(platform: Platform, setup: TlsSetup, lockfile: Option<&str>) -> (r: Result<
        LOLClientAPI,
        LOLClientError,
    >)
        ensures
            session_view(r) == session_of(platform, setup, contents_view(lockfile)),
            r matches Ok(api) ==> api.lockfile.well_formed(),
    {
        match platform {
            Platform::Linux => {
                return Err(LOLClientError::LinuxNotSupported);
            },
            _ => {},
        }
        let accept_invalid_certs = setup.accept_invalid_certs;
        let connector = match setup.connector {
            Ok(connector) => connector,
            Err(e) => {
                return Err(LOLClientError::TlsConnectorError(e));
            },
        };
        let agent = build_agent(use_connector(agent_builder(), connector));
        match lockfile {
            None => Err(LOLClientError::LockfileReadError(LeagueConnectorError::UnableToRead)),
            Some(contents) => match LeagueClientConnector::parse_lockfile(contents) {
                Ok(lockfile) => Ok(LOLClientAPI { agent, lockfile, accept_invalid_certs }),
                Err(e) => Err(LOLClientError::LockfileReadError(e)),
            },
        }
    }

    /// The address of `endpoint` on the client.
    pub open spec fn url_of(&self, endpoint: Seq<char>) -> Seq<char> {
        "https://127.0.0.1:"@ + decimal_nat(self.lockfile.port as nat) + endpoint
    }

    /// The value of the `Authorization` header.
    pub open spec fn authorization_of(&self) -> Seq<char> {
        "Basic "@ + self.lockfile.b64_auth@
    }

    /// The request of this session with the given method, path and body.
    pub open spec fn request_of(
        &self,
        method: Method,
        endpoint: Seq<char>,
        body: Option<NewRunePageView>,
    ) -> RequestView {
        RequestView {
            method,
            url: self.url_of(endpoint),
            authorization: self.authorization_of(),
            body,
        }
    }

    /// Deleting the page `old_page_id`, then creating `page`.
    pub open spec fn update_plan(&self, old_page_id: i64, page: NewRunePageView) -> Seq<
        RequestView,
    > {
        seq![
            self.request_of(Method::Delete, page_endpoint(old_page_id), None),
            self.request_of(Method::Post, "/lol-perks/v1/pages"@, Some(page)),
        ]
    }

    /// The requests that put `page` in place of the page to replace among
    /// `pages`; only the creation where there is none to replace, and no
    /// request where the pages are not known.
    pub open spec fn publish_plan(&self, pages: Option<Seq<RunePage>>, page: NewRunePageView) -> Seq<
        RequestView,
    > {
        match pages {
            None => Seq::empty(),
            Some(pages) => match replace_target(pages) {
                Some(i) => self.update_plan(pages[i].id, page),
                None => seq![self.request_of(Method::Post, "/lol-perks/v1/pages"@, Some(page))],
            },
        }
    }

    /// The address of `endpoint` on the client.
    pub fn make_url(&self, endpoint: &str) -> (url: String)
        ensures
            url@ == self.url_of(endpoint@),
    {
        let mut url = String::from_str("https://127.0.0.1:");
        push_decimal(&mut url, self.lockfile.port as u64);
        url.append(endpoint);
        url
    }

    /// The value of the `Authorization` header of every request.
    pub fn authorization(&self) -> (value: String)
        ensures
            value@ == self.authorization_of(),
    {
        let mut value = String::from_str("Basic ");
        value.append(self.lockfile.b64_auth.as_str());
        value
    }

    fn request(&self, method: Method, endpoint: &str, body: Option<NewRunePage>) -> (r:
        ClientRequest)
        ensures
            r.method == method,
            r.url@ == self.url_of(endpoint@),
            r.authorization@ == self.authorization_of(),
            r.body == body,
    {
        ClientRequest {
            method,
            url: self.make_url(endpoint),
            authorization: self.authorization(),
            body,
        }
    }

    /// The request for the profile of the player who is logged in.
    pub fn get_summoner_info(&self) -> (r: ClientRequest)
        ensures
            r@ == self.request_of(Method::Get, "/lol-summoner/v1/current-summoner"@, None),
    {
        self.request(Method::Get, "/lol-summoner/v1/current-summoner", None)
    }

    /// The request for the state of champion select.
    pub fn get_champ_select_session(&self) -> (r: ClientRequest)
        ensures
            r@ == self.request_of(Method::Get, "/lol-champ-select/v1/session"@, None),
    {
        self.request(Method::Get, "/lol-champ-select/v1/session", None)
    }

    /// The request for the list of rune pages.
    pub fn get_rune_pages(&self) -> (r: ClientRequest)
        ensures
            r@ == self.request_of(Method::Get, "/lol-perks/v1/pages"@, None),
    {
        self.request(Method::Get, "/lol-perks/v1/pages", None)
    }

    /// Picks the page that a new page replaces: see `replace_target`.
    /// `pages` is the reply to the page list request.
    pub fn get_current_rune_page<'a>(pages: Option<&'a Vec<RunePage>>) -> (r: Option<
        &'a RunePage,
    >)
        ensures
            match replace_target(listed(pages)) {
                Some(i) => r == Some(&listed(pages)[i]),
                None => r is None,
            },
    {
        match pages {
            None => None,
            Some(pages) => match find_page(pages, true) {
                Some(i) => Some(&pages[i]),
                None => match find_page(pages, false) {
                    Some(i) => Some(&pages[i]),
                    None => None,
                },
            },
        }
    }

    /// The requests that delete the page `old_page_id` and then create
    /// `rune_page`, in this order.
    pub fn update_rune_page(&self, old_page_id: i64, rune_page: NewRunePage) -> (requests: Vec<
        ClientRequest,
    >)
        ensures
            request_views(requests@) == self.update_plan(old_page_id, rune_page@),
    {
        let mut endpoint = String::from_str("/lol-perks/v1/pages/");
        push_signed_decimal(&mut endpoint, old_page_id);
        let mut requests: Vec<ClientRequest> = Vec::new();
        requests.push(self.request(Method::Delete, endpoint.as_str(), None));
        requests.push(self.request(Method::Post, "/lol-perks/v1/pages", Some(rune_page)));
        assert(request_views(requests@) =~= self.update_plan(old_page_id, rune_page@));
        requests
    }

    /// The requests that publish `rune_page`, given the reply to the page
    /// list request: the page to replace among `pages` is deleted first, if
    /// there is one, and then the new page is created. Where the reply had
    /// no data, what is there to replace is unknown and nothing is sent.
    pub fn publish(&self, pages: Option<&Vec<RunePage>>, rune_page: NewRunePage) -> (requests: Vec<
        ClientRequest,
    >)
        ensures
            request_views(requests@) == self.publish_plan(pages_view(pages), rune_page@),
    {
        let mut requests: Vec<ClientRequest> = Vec::new();
        if pages.is_none() {
            assert(request_views(requests@) =~= Seq::empty());
            return requests;
        }
        match Self::get_current_rune_page(pages) {
            Some(page) => self.update_rune_page(page.id, rune_page),
            None => {
                requests.push(self.request(Method::Post, "/lol-perks/v1/pages", Some(rune_page)));
                assert(request_views(requests@) =~= self.publish_plan(
                    pages_view(pages),
                    rune_page@,
                ));
                requests
            },
        }
    }
}

} // verus!
