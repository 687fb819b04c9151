use uggo::client::{
    get_data, ClientRequest, ClientResponse, LOLClientAPI, LOLClientError, Method, Platform,
    TlsSetup,
};
use uggo::client_runepage::{NewRunePage, RunePage};
use uggo::lcc::LeagueConnectorError;

const LOCKFILE: &str = "LeagueClient:1234:54321:secretXYZ:https";
const TOKEN: &str = "Basic cmlvdDpzZWNyZXRYWVo=";

fn session() -> LOLClientAPI {
    LOLClientAPI::new(Platform::Windows, Some(LOCKFILE)).unwrap()
}

fn tls_failure() -> native_tls::Error {
    native_tls::Identity::from_pkcs12(&[], "").err().unwrap()
}

fn failed_setup() -> TlsSetup {
    TlsSetup { accept_invalid_certs: true, connector: Err(tls_failure()) }
}

fn page(id: i64, name: &str, current: bool, is_deletable: bool) -> RunePage {
    RunePage {
        id,
        name: name.to_string(),
        current,
        is_deletable,
        primary_style_id: 8000,
        sub_style_id: 8100,
        selected_perk_ids: vec![8005, 9111, 9104, 8014, 8126, 8138, 5008, 5002, 5001],
    }
}

fn draft() -> NewRunePage {
    NewRunePage {
        name: "uggo: Ahri, Normal".to_string(),
        primary_style_id: 8100,
        sub_style_id: 8200,
        selected_perk_ids: vec![8112, 8126, 8138, 8135, 8226, 8210, 5005, 5008, 5001],
    }
}

fn get(url: &str) -> ClientRequest {
    ClientRequest {
        method: Method::Get,
        url: url.to_string(),
        authorization: TOKEN.to_string(),
        body: None,
    }
}

fn delete(id: &str) -> ClientRequest {
    ClientRequest {
        method: Method::Delete,
        url: format!("https://127.0.0.1:54321/lol-perks/v1/pages/{}", id),
        authorization: TOKEN.to_string(),
        body: None,
    }
}

fn create(page: NewRunePage) -> ClientRequest {
    ClientRequest {
        method: Method::Post,
        url: "https://127.0.0.1:54321/lol-perks/v1/pages".to_string(),
        authorization: TOKEN.to_string(),
        body: Some(page),
    }
}

#[test]
fn new_reads_port_and_token_from_the_lockfile() {
    let api = session();
    assert_eq!(api.lockfile.port, 54321);
    assert_eq!(api.lockfile.password, "secretXYZ");
    assert_eq!(api.lockfile.b64_auth, "cmlvdDpzZWNyZXRYWVo=");
    assert_eq!(api.lockfile.pid, 1234);
    assert_eq!(api.lockfile.process, "LeagueClient");
    assert_eq!(api.lockfile.protocol, "https");
    assert!(api.accept_invalid_certs);
    let other = LOLClientAPI::new(Platform::MacOs, Some(LOCKFILE)).unwrap();
    assert_eq!(other.lockfile, api.lockfile);
    assert!(other.accept_invalid_certs);
}

#[test]
fn tls_setup_notes_the_setting() {
    let setup = TlsSetup::new(true);
    assert!(setup.accept_invalid_certs);
    assert!(setup.connector.is_ok());
    let setup = TlsSetup::new(false);
    assert!(!setup.accept_invalid_certs);
    assert!(setup.connector.is_ok());
}

#[test]
fn new_fails_fast_on_linux() {
    assert!(matches!(
        LOLClientAPI::new(Platform::Linux, Some(LOCKFILE)),
        Err(LOLClientError::LinuxNotSupported)
    ));
    assert!(matches!(
        LOLClientAPI::new(Platform::Linux, None),
        Err(LOLClientError::LinuxNotSupported)
    ));
    assert!(matches!(
        LOLClientAPI::with_connector(Platform::Linux, TlsSetup::new(true), Some(LOCKFILE)),
        Err(LOLClientError::LinuxNotSupported)
    ));
    assert!(matches!(
        LOLClientAPI::with_connector(Platform::Linux, failed_setup(), None),
        Err(LOLClientError::LinuxNotSupported)
    ));
}

#[test]
fn with_connector_names_tls_before_the_lockfile() {
    assert!(matches!(
        LOLClientAPI::with_connector(Platform::Windows, failed_setup(), Some(LOCKFILE)),
        Err(LOLClientError::TlsConnectorError(_))
    ));
    assert!(matches!(
        LOLClientAPI::with_connector(Platform::MacOs, failed_setup(), None),
        Err(LOLClientError::TlsConnectorError(_))
    ));
    assert!(matches!(
        LOLClientAPI::with_connector(Platform::MacOs, failed_setup(), Some("bad")),
        Err(LOLClientError::TlsConnectorError(_))
    ));
}

#[test]
fn with_connector_reads_the_lockfile() {
    let api =
        LOLClientAPI::with_connector(Platform::MacOs, TlsSetup::new(true), Some(LOCKFILE)).unwrap();
    assert_eq!(api.lockfile, session().lockfile);
    assert!(api.accept_invalid_certs);
    let api = LOLClientAPI::with_connector(Platform::Windows, TlsSetup::new(false), Some(LOCKFILE))
        .unwrap();
    assert!(!api.accept_invalid_certs);
    assert!(matches!(
        LOLClientAPI::with_connector(Platform::Windows, TlsSetup::new(true), None),
        Err(LOLClientError::LockfileReadError(LeagueConnectorError::UnableToRead))
    ));
    assert!(matches!(
        LOLClientAPI::with_connector(Platform::Windows, TlsSetup::new(true), Some("a:b")),
        Err(LOLClientError::LockfileReadError(LeagueConnectorError::FieldCount))
    ));
}

#[test]
fn new_reports_a_lockfile_that_is_missing_or_malformed() {
    assert!(matches!(
        LOLClientAPI::new(Platform::Windows, None),
        Err(LOLClientError::LockfileReadError(LeagueConnectorError::UnableToRead))
    ));
    assert!(matches!(
        LOLClientAPI::new(Platform::Windows, Some("LeagueClient:1234:54321:secretXYZ")),
        Err(LOLClientError::LockfileReadError(LeagueConnectorError::FieldCount))
    ));
    assert!(matches!(
        LOLClientAPI::new(Platform::Windows, Some("LeagueClient:x:54321:secretXYZ:https")),
        Err(LOLClientError::LockfileReadError(LeagueConnectorError::InvalidPid))
    ));
    assert!(matches!(
        LOLClientAPI::new(Platform::MacOs, Some("LeagueClient:1234::secretXYZ:https")),
        Err(LOLClientError::LockfileReadError(LeagueConnectorError::InvalidPort))
    ));
}

#[test]
fn error_messages() {
    assert_eq!(
        LOLClientError::TlsConnectorError(tls_failure()).message(),
        "Unable to create TLS connector"
    );
    assert_eq!(
        LOLClientError::LockfileReadError(LeagueConnectorError::FieldCount).message(),
        "Unable to read lockfile"
    );
    assert_eq!(LOLClientError::LinuxNotSupported.message(), "Linux is not supported");
}

#[test]
fn lockfile_path_by_platform() {
    assert_eq!(
        Platform::Windows.lockfile_path().unwrap(),
        "C:\\Riot Games\\League of Legends\\lockfile"
    );
    assert_eq!(
        Platform::MacOs.lockfile_path().unwrap(),
        "/Applications/League of Legends.app/Contents/LoL/lockfile"
    );
    assert!(matches!(Platform::Linux.lockfile_path(), Err(LOLClientError::LinuxNotSupported)));
}

#[test]
fn make_url_targets_the_loopback_port() {
    let api = session();
    assert_eq!(api.make_url("/lol-perks/v1/pages"), "https://127.0.0.1:54321/lol-perks/v1/pages");
    assert_eq!(api.make_url(""), "https://127.0.0.1:54321");
    let other = LOLClientAPI::new(Platform::Windows, Some("c:1:0:s:https")).unwrap();
    assert_eq!(other.make_url("/x"), "https://127.0.0.1:0/x");
    let large = LOLClientAPI::new(Platform::Windows, Some("c:1:4294967295:s:https")).unwrap();
    assert_eq!(large.make_url("/x"), "https://127.0.0.1:4294967295/x");
}

#[test]
fn authorization_is_basic_with_the_token() {
    assert_eq!(session().authorization(), TOKEN);
}

#[test]
fn read_requests() {
    let api = session();
    assert_eq!(
        api.get_summoner_info(),
        get("https://127.0.0.1:54321/lol-summoner/v1/current-summoner")
    );
    assert_eq!(
        api.get_champ_select_session(),
        get("https://127.0.0.1:54321/lol-champ-select/v1/session")
    );
    assert_eq!(api.get_rune_pages(), get("https://127.0.0.1:54321/lol-perks/v1/pages"));
}

#[test]
fn get_data_takes_the_body_of_a_success() {
    for code in [200u16, 201, 204, 250, 299] {
        assert_eq!(get_data(ClientResponse::Status { code, body: Some(7) }), Some(7));
    }
}

#[test]
fn get_data_gives_nothing_otherwise() {
    assert_eq!(get_data(ClientResponse::<i32>::Unreachable), None);
    for code in [0u16, 100, 199, 300, 301, 400, 401, 404, 500, 503, u16::MAX] {
        assert_eq!(get_data(ClientResponse::Status { code, body: Some(7) }), None);
        assert_eq!(get_data(ClientResponse::<i32>::Status { code, body: None }), None);
    }
    assert_eq!(get_data(ClientResponse::<i32>::Status { code: 200, body: None }), None);
}

#[test]
fn get_current_rune_page_prefers_a_page_of_its_own() {
    let pages = vec![
        page(1, "My page", true, true),
        page(2, "uggo: Ahri, Normal", false, true),
        page(3, "uggo: Zed, ARAM", false, true),
    ];
    assert_eq!(LOLClientAPI::get_current_rune_page(Some(&pages)), Some(&pages[1]));
}

#[test]
fn get_current_rune_page_skips_pages_that_cannot_be_deleted() {
    let pages = vec![
        page(1, "uggo: Ahri, Normal", true, false),
        page(2, "Preset", true, false),
        page(3, "Mine", true, true),
        page(4, "Other", true, true),
    ];
    assert_eq!(LOLClientAPI::get_current_rune_page(Some(&pages)), Some(&pages[2]));
}

#[test]
fn get_current_rune_page_wants_the_exact_prefix() {
    let pages = vec![
        page(1, "UGGO: Ahri", false, true),
        page(2, "uggo", false, true),
        page(3, " uggo: Ahri", false, true),
        page(4, "uggo:", false, true),
    ];
    assert_eq!(LOLClientAPI::get_current_rune_page(Some(&pages)), Some(&pages[3]));
}

#[test]
fn get_current_rune_page_finds_nothing_to_replace() {
    let pages = vec![page(1, "Preset", true, false), page(2, "Mine", false, true)];
    assert_eq!(LOLClientAPI::get_current_rune_page(Some(&pages)), None);
    assert_eq!(LOLClientAPI::get_current_rune_page(Some(&vec![])), None);
    assert_eq!(LOLClientAPI::get_current_rune_page(None), None);
}

#[test]
fn update_rune_page_deletes_then_creates() {
    let api = session();
    assert_eq!(api.update_rune_page(42, draft()), vec![delete("42"), create(draft())]);
    assert_eq!(api.update_rune_page(0, draft()), vec![delete("0"), create(draft())]);
    assert_eq!(api.update_rune_page(-7, draft()), vec![delete("-7"), create(draft())]);
    assert_eq!(
        api.update_rune_page(i64::MAX, draft()),
        vec![delete("9223372036854775807"), create(draft())]
    );
    assert_eq!(
        api.update_rune_page(i64::MIN, draft()),
        vec![delete("-9223372036854775808"), create(draft())]
    );
}

#[test]
fn publish_replaces_the_page_of_its_own() {
    let api = session();
    let pages = vec![
        page(1, "Mine", true, true),
        page(1234567, "uggo: Zed, Normal", false, true),
        page(3, "uggo: Lux, Normal", false, true),
    ];
    let requests = api.publish(Some(&pages), draft());
    assert_eq!(requests, vec![delete("1234567"), create(draft())]);
    assert_eq!(requests.iter().filter(|r| r.method == Method::Delete).count(), 1);
    assert_eq!(requests.iter().filter(|r| r.method == Method::Post).count(), 1);
}

#[test]
fn publish_replaces_the_page_in_use_without_one_of_its_own() {
    let api = session();
    let pages = vec![page(1, "Preset", false, false), page(2, "Mine", true, true)];
    assert_eq!(api.publish(Some(&pages), draft()), vec![delete("2"), create(draft())]);
}

#[test]
fn publish_only_creates_without_a_page_to_replace() {
    let api = session();
    let pages = vec![page(1, "Preset", true, false), page(2, "Mine", false, true)];
    assert_eq!(api.publish(Some(&pages), draft()), vec![create(draft())]);
    assert_eq!(api.publish(Some(&vec![]), draft()), vec![create(draft())]);
}

#[test]
fn publish_sends_nothing_when_the_pages_are_unknown() {
    assert_eq!(session().publish(None, draft()), vec![]);
}
